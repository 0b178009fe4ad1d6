use minimult_cortex_m::{MTKernel, MTState, Minimult};

/// Serve one PendSV as the trampoline would.
fn pendsv(k: &mut MTKernel) -> Option<u16> {
    let (sp, splim) = match k.task_current() {
        Some(t) => (t.sp, t.sp_start),
        None => (0, 0),
    };
    k.save_sp(sp, splim).unwrap();
    k.task_switch();
    k.curr_tid()
}

#[test]
fn ready_tasks_fill_the_heap_and_waiting_tasks_the_free_list() {
    // the state/structure agreement, on concrete values: two registered
    // tasks sit in the heap; one that blocks moves to the free list at the
    // next switch; one that finishes leaves the scheduler altogether
    let mut mem = Minimult::mem(1 << 16);
    let mut mt = Minimult::new(&mut mem, 2).unwrap();
    mt.register(0, 1, 256, 4, 4).unwrap();
    mt.register(1, 1, 256, 4, 4).unwrap();
    let mut k = mt.run();
    assert_eq!(k.task_tree.n_bheap, 2);
    assert_eq!(k.task_tree.n_flist, 0);

    assert_eq!(pendsv(&mut k), Some(0));
    // task 0 blocks in idle; the next switch moves it to the free list
    assert!(!k.idle());
    pendsv(&mut k);
    assert_eq!(k.task_tree.n_bheap, 1);
    assert_eq!(k.task_tree.n_flist, 1);
    assert_eq!(k.task_current().unwrap().state, MTState::Ready);

    // task 1 finishes; the next switch removes it for good
    k.none();
    pendsv(&mut k);
    assert_eq!(k.task_tree.n_bheap, 0);
    assert_eq!(k.task_tree.n_flist, 1);
    assert_eq!(k.curr_tid(), None);
}

#[test]
fn saved_stack_pointers_stay_within_their_stacks() {
    let mut mem = Minimult::mem(1 << 16);
    let mut mt = Minimult::new(&mut mem, 2).unwrap();
    mt.register(0, 1, 256, 16, 8).unwrap();
    mt.register(1, 2, 64, 4, 4).unwrap();
    let mut k = mt.run();
    for _ in 0..5 {
        pendsv(&mut k);
        for t in 0..2u16 {
            let task = if Some(t) == k.curr_tid() {
                k.task_current().unwrap()
            } else {
                // read through the public state
                k.tasks[t as usize]
            };
            assert!(task.sp_start <= task.sp && task.sp <= task.sp_end);
        }
    }
}

#[test]
fn queue_counter_tracks_buffered_messages() {
    // the counter equals the number of buffered messages at every point, and
    // never leaves [0, capacity]
    let mut mem = Minimult::mem(1 << 16);
    let mut mt = Minimult::new(&mut mem, 1).unwrap();
    let mut q = mt.msgq::<u8>(3).unwrap();
    let (snd, rcv) = q.ch();
    mt.register(0, 1, 256, 4, 4).unwrap();
    let mut k = mt.run();
    pendsv(&mut k);

    assert_eq!(rcv.available(&q, &k), 0);
    assert_eq!(snd.vacant(&q, &k), 3);
    assert!(snd.send(&mut q, &mut k, 1).is_none());
    assert!(snd.send(&mut q, &mut k, 2).is_none());
    assert_eq!(rcv.available(&q, &k), 2);
    assert_eq!(snd.vacant(&q, &k), 1);
    assert!(snd.send(&mut q, &mut k, 3).is_none());
    // full: the counter stops at the capacity and the sender blocks
    assert_eq!(rcv.available(&q, &k), 3);
    assert_eq!(snd.send(&mut q, &mut k, 4), Some(4));
    pendsv(&mut k);
    assert_eq!(rcv.receive(&mut q, &mut k), Some(1));
    assert_eq!(rcv.receive(&mut q, &mut k), Some(2));
    assert_eq!(rcv.receive(&mut q, &mut k), Some(3));
    // empty: the counter stops at zero and the receiver blocks
    assert_eq!(rcv.available(&q, &k), 0);
    assert_eq!(rcv.receive(&mut q, &mut k), None);
}

#[test]
fn rw_counter_encodes_who_holds_the_variable() {
    // counter values: 0 while the writer holds, 1 while idle, 1 + readers
    // while readers hold
    let mut mem = Minimult::mem(1 << 16);
    let mut mt = Minimult::new(&mut mem, 1).unwrap();
    let mut s = mt.share::<u8>(9).unwrap();
    let ch = s.ch();
    let mut k = mt.run();

    assert_eq!(k.ev_cnt(s.rw_cnt), 1);
    let g1 = ch.try_look(&mut s, &mut k).unwrap();
    let g2 = ch.try_look(&mut s, &mut k).unwrap();
    assert_eq!(k.ev_cnt(s.rw_cnt), 3);
    // readers out: no writer can get in
    assert!(ch.try_touch(&mut s, &mut k).is_none());
    g1.release(&mut s, &mut k);
    g2.release(&mut s, &mut k);
    assert_eq!(k.ev_cnt(s.rw_cnt), 1);
    let w = ch.try_touch(&mut s, &mut k).unwrap();
    assert_eq!(k.ev_cnt(s.rw_cnt), 0);
    // writer in: no reader, no second writer
    assert!(ch.try_look(&mut s, &mut k).is_none());
    assert!(ch.try_touch(&mut s, &mut k).is_none());
    assert_eq!(*w.value(&s), 9);
    w.set(&mut s, 11);
    w.release(&mut s, &mut k);
    assert_eq!(k.ev_cnt(s.rw_cnt), 1);
    let g = ch.try_look(&mut s, &mut k).unwrap();
    assert_eq!(*g.value(&s), 11);
    g.release(&mut s, &mut k);
}
