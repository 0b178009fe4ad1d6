use minimult_cortex_m::{
    align_down, align_up, wrap_diff, wrap_inc, MTBHeapDList, MTErr, MTEvent, MTEventCond,
    MTKernel, MTMemBlk, MTAlloc, Minimult,
};

#[test]
fn event_counter_basics() {
    let mut ev = MTEvent::new(0);
    assert_eq!(ev.cnt(), 0);
    ev.incr();
    ev.incr();
    assert_eq!(ev.cnt(), 2);
    ev.decr();
    assert_eq!(ev.cnt(), 1);
}

#[test]
fn event_counter_wraps() {
    let mut ev = MTEvent::new(usize::MAX);
    ev.incr();
    assert_eq!(ev.cnt(), 0);
    ev.decr();
    assert_eq!(ev.cnt(), usize::MAX);
}

#[test]
fn event_conditional_steps_are_atomic() {
    // the conditional operations decide and update in one step, against the
    // value they read
    let mut ev = MTEvent::new(0);
    assert!(!ev.incr_ifgt0());
    assert_eq!(ev.cnt(), 0);
    ev.incr();
    assert!(ev.incr_ifgt0());
    assert_eq!(ev.cnt(), 2);
    assert!(!ev.decr_if1());
    assert_eq!(ev.cnt(), 2);
    ev.decr();
    assert!(ev.decr_if1());
    assert_eq!(ev.cnt(), 0);
    assert!(!ev.decr_if1());
}

#[test]
fn event_condition_matching() {
    let ev = MTEvent::new(3);
    assert!(ev.cond_matched(&MTEventCond::Equal(3)));
    assert!(!ev.cond_matched(&MTEventCond::Equal(4)));
    assert!(ev.cond_matched(&MTEventCond::NotEqual(0)));
    assert!(!ev.cond_matched(&MTEventCond::NotEqual(3)));
    assert!(ev.cond_matched(&MTEventCond::LessThan(4)));
    assert!(!ev.cond_matched(&MTEventCond::LessThan(3)));
    assert!(ev.cond_matched(&MTEventCond::GreaterThan(2)));
    assert!(!ev.cond_matched(&MTEventCond::GreaterThan(3)));
}

#[test]
fn alignment_rounding() {
    assert_eq!(align_up(0, 8), 0);
    assert_eq!(align_up(1, 8), 8);
    assert_eq!(align_up(8, 8), 8);
    assert_eq!(align_up(9, 4), 12);
    assert_eq!(align_down(0, 8), 0);
    assert_eq!(align_down(7, 8), 0);
    assert_eq!(align_down(8, 8), 8);
    assert_eq!(align_down(15, 4), 12);
}

#[test]
fn ring_index_arithmetic() {
    assert_eq!(wrap_inc(0, 4), 1);
    assert_eq!(wrap_inc(3, 4), 0);
    assert_eq!(wrap_diff(3, 1, 4), 2);
    assert_eq!(wrap_diff(1, 3, 4), 2);
    assert_eq!(wrap_diff(2, 2, 4), 0);
}

#[test]
fn heap_orders_by_key() {
    let mut tree = MTBHeapDList::new(8);
    tree.add_bheap(0, 5);
    tree.add_bheap(1, 2);
    tree.add_bheap(2, 7);
    tree.add_bheap(3, 1);
    // smallest key first
    assert_eq!(tree.bheap_h(), Some(3));
    tree.remove_bheap_h();
    assert_eq!(tree.bheap_h(), Some(1));
    tree.remove_bheap_h();
    assert_eq!(tree.bheap_h(), Some(0));
    tree.remove_bheap_h();
    assert_eq!(tree.bheap_h(), Some(2));
    tree.remove_bheap_h();
    assert_eq!(tree.bheap_h(), None);
}

#[test]
fn round_robin_rotates_three_equal_keys() {
    // three entries of one priority class: the head cycles through all three
    // before any repeats
    let mut tree = MTBHeapDList::new(4);
    tree.add_bheap(10, 1);
    tree.add_bheap(11, 1);
    tree.add_bheap(12, 1);
    let mut heads = Vec::new();
    for _ in 0..6 {
        heads.push(tree.bheap_h().unwrap());
        tree.round_bheap_h();
    }
    assert_eq!(heads, vec![10, 11, 12, 10, 11, 12]);
}

#[test]
fn round_robin_hands_the_head_onward_for_any_size() {
    // whatever the class size, one rotation gives the head to the entry in
    // the next slot and parks the outgoing head at the tail slot
    let mut tree = MTBHeapDList::new(8);
    for t in 0..5u16 {
        tree.add_bheap(t, 1);
    }
    for _ in 0..10 {
        let head = tree.bheap_h().unwrap();
        let next = tree.array[1].unwrap().0;
        let n = tree.n_bheap;
        tree.round_bheap_h();
        assert_eq!(tree.bheap_h().unwrap(), next);
        assert_eq!(tree.array[n - 1].unwrap().0, head);
    }
}

#[test]
fn pop_moves_head_to_free_list_and_scan_promotes() {
    let mut tree = MTBHeapDList::new(4);
    tree.add_bheap(0, 3);
    tree.add_bheap(1, 1);
    assert_eq!(tree.bheap_h(), Some(1));
    tree.bheap_h_to_flist_h();
    assert_eq!(tree.bheap_h(), Some(0));
    assert_eq!(tree.n_flist, 1);
    // promote id 1 back
    let promote = vec![false, true];
    tree.flist_scan(&promote);
    assert_eq!(tree.n_flist, 0);
    assert_eq!(tree.bheap_h(), Some(1));
}

#[test]
fn allocator_carves_aligned_arrays_and_reports_shortage() {
    let mem = MTMemBlk::new(0, 64);
    let mut alloc = MTAlloc::new(&mem);
    let a = alloc.array(4, 4, 8).unwrap();
    assert_eq!(a.head(), 0);
    assert_eq!(a.len(), 4);
    assert_eq!(a.tail(), 16);
    let b = alloc.array(1, 4, 32).unwrap();
    assert_eq!(b.head(), 32);
    let r = alloc.array(16, 4, 4);
    assert_eq!(r.unwrap_err(), MTErr::MemShortage);
}

#[test]
fn minimult_new_reports_memory_shortage() {
    let mut mem = Minimult::mem(8);
    let r = Minimult::new(&mut mem, 4);
    assert!(matches!(r, Err(MTErr::MemShortage)));
}

#[test]
fn register_rejects_bad_task_ids() {
    let mut mem = Minimult::mem(65536);
    let mut mt = Minimult::new(&mut mem, 2).unwrap();
    let r = mt.register(2, 1, 256, 4, 4);
    assert_eq!(r.unwrap_err(), MTErr::BadTaskId);
}

#[test]
fn register_rejects_double_registration() {
    let mut mem = Minimult::mem(65536);
    let mut mt = Minimult::new(&mut mem, 2).unwrap();
    mt.register(0, 1, 256, 4, 4).unwrap();
    let r = mt.register(0, 1, 256, 4, 4);
    assert_eq!(r.unwrap_err(), MTErr::DoubleRegistration);
}

#[test]
fn register_rejects_undersized_stack() {
    // the initial exception frame alone takes twenty words
    let mut mem = Minimult::mem(65536);
    let mut mt = Minimult::new(&mut mem, 2).unwrap();
    let r = mt.register(0, 1, 4, 4, 4);
    assert_eq!(r.unwrap_err(), MTErr::StackShortage);
}

#[test]
fn kick_rejects_bad_task_ids() {
    let mut mem = Minimult::mem(65536);
    let mut mt = Minimult::new(&mut mem, 1).unwrap();
    assert_eq!(mt.kick(3).unwrap_err(), MTErr::BadTaskId);
    assert!(mt.kick(0).is_ok());
}

#[test]
fn initial_frame_layout() {
    // the fabricated exception frame: EXC_RETURN selects thread mode with a
    // basic frame, R0 carries the body pointer, LR the return landing spot,
    // the return address the entry, xPSR the Thumb bit; all else zero
    let f = minimult_cortex_m::initial_frame(0x2000_1234, 0x0800_4321, 0x0800_00f1);
    assert_eq!(f.len(), 18);
    assert_eq!(f[minimult_cortex_m::FRAME_EXC_RETURN], 0xffff_fff9);
    assert_eq!(f[minimult_cortex_m::FRAME_R0], 0x2000_1234);
    assert_eq!(f[minimult_cortex_m::FRAME_LR], 0x0800_00f1);
    assert_eq!(f[minimult_cortex_m::FRAME_RET_ADDR], 0x0800_4321);
    assert_eq!(f[minimult_cortex_m::FRAME_XPSR], 0x0100_0000);
    for (i, w) in f.iter().enumerate() {
        if ![9, 10, 15, 16, 17].contains(&i) {
            assert_eq!(*w, 0);
        }
    }
}

#[test]
fn kernel_starts_inactive_and_idle() {
    let k = MTKernel::new(3);
    assert_eq!(k.curr_tid(), None);
    assert!(k.task_current().is_none());
    assert_eq!(k.ev_cnt(0), 0);
    assert_eq!(k.ev_cnt(2), 0);
}
