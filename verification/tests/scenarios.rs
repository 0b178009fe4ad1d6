use minimult_cortex_m::{MTEventCond, MTKernel, Minimult};

/// Serve one PendSV as the exception trampoline would: save the outgoing
/// context (using the task's recorded stack pointer as the live one), then
/// run the switch and return the task picked.
fn pendsv(k: &mut MTKernel) -> Option<u16> {
    let (sp, splim) = match k.task_current() {
        Some(t) => (t.sp, t.sp_start),
        None => (0, 0),
    };
    k.save_sp(sp, splim).unwrap();
    k.task_switch();
    k.curr_tid()
}

fn setup(num_tasks: u16, pris: &[u8]) -> MTKernel {
    let mut mem = Minimult::mem(1 << 20);
    let mut mt = Minimult::new(&mut mem, num_tasks).unwrap();
    for (tid, pri) in pris.iter().enumerate() {
        mt.register(tid as u16, *pri, 256, 4, 4).unwrap();
    }
    mt.run()
}

#[test]
fn sc1_priority_preemption() {
    // A at priority 1 and B at priority 2, both ready: A runs every cycle
    // and B not at all, until A blocks
    let mut k = setup(2, &[1, 2]);
    let mut a_runs = 0;
    let mut b_runs = 0;
    for _ in 0..1000 {
        match pendsv(&mut k) {
            Some(0) => a_runs += 1,
            Some(1) => b_runs += 1,
            _ => {}
        }
    }
    assert_eq!(a_runs, 1000);
    assert_eq!(b_runs, 0);
    // A goes idle; with no kick banked it blocks, and B finally runs
    assert!(!k.idle());
    assert_eq!(pendsv(&mut k), Some(1));
    b_runs += 1;
    assert_eq!(b_runs, 1);
}

#[test]
fn sc2_round_robin_among_equal_priorities() {
    // three tasks at one priority, each incrementing its counter then going
    // idle; all three kicked on every tick
    let mut k = setup(3, &[1, 1, 1]);
    let mut counters = [0u32; 3];
    // each task's first activation parks it in idle before the ticks start
    pendsv(&mut k);
    for _ in 0..3 {
        while k.idle() {}
        pendsv(&mut k);
    }
    assert_eq!(k.curr_tid(), None);
    for _ in 0..300 {
        k.kick(0).unwrap();
        k.kick(1).unwrap();
        k.kick(2).unwrap();
        if let Some(t) = pendsv(&mut k) {
            // the dispatched task runs once: count, drain its kicks, idle
            counters[t as usize] += 1;
            while k.idle() {}
        }
    }
    assert_eq!(counters, [100, 100, 100]);
}

#[test]
fn sc3_spsc_queue_in_order() {
    // capacity 4; the producer sends 0..=999 and the consumer checks each
    // value equals its index
    let mut mem = Minimult::mem(1 << 20);
    let mut mt = Minimult::new(&mut mem, 2).unwrap();
    let mut q = mt.msgq::<u32>(4).unwrap();
    let (snd, rcv) = q.ch();
    mt.register(0, 1, 256, 4, 4).unwrap();
    mt.register(1, 1, 256, 4, 4).unwrap();
    let mut k = mt.run();

    let mut next_send: u32 = 0;
    let mut next_recv: u32 = 0;
    let mut steps = 0;
    while next_recv < 1000 {
        steps += 1;
        assert!(steps < 100000, "queue scenario stalled");
        match pendsv(&mut k) {
            Some(0) => {
                if next_send < 1000 {
                    if snd.send(&mut q, &mut k, next_send).is_none() {
                        next_send += 1;
                    }
                } else {
                    assert!(!k.idle());
                }
            }
            Some(1) => {
                if let Some(v) = rcv.receive(&mut q, &mut k) {
                    assert_eq!(v, next_recv);
                    next_recv += 1;
                }
            }
            _ => {
                // both blocked: a fresh kick gets things moving again
                k.kick(0).unwrap();
                k.kick(1).unwrap();
            }
        }
    }
    assert_eq!(next_recv, 1000);
}

#[test]
fn sc4_readers_and_writer() {
    // two readers, each doing 1000 looks and checking the value never goes
    // down; one writer doing 1000 increments
    let mut mem = Minimult::mem(1 << 20);
    let mut mt = Minimult::new(&mut mem, 3).unwrap();
    let mut s = mt.share::<u32>(0).unwrap();
    let ch = s.ch();
    mt.register(0, 1, 256, 4, 4).unwrap();
    mt.register(1, 1, 256, 4, 4).unwrap();
    mt.register(2, 1, 256, 4, 4).unwrap();
    let mut k = mt.run();

    let mut looks = [0u32; 2];
    let mut prev = [0u32; 2];
    let mut touches = 0u32;
    let mut steps = 0;
    while looks[0] < 1000 || looks[1] < 1000 || touches < 1000 {
        steps += 1;
        assert!(steps < 100000, "shared scenario stalled");
        match pendsv(&mut k) {
            Some(t @ (0 | 1)) => {
                let ti = t as usize;
                if looks[ti] < 1000 {
                    if let Some(g) = ch.look(&mut s, &mut k) {
                        let v = *g.value(&s);
                        assert!(v >= prev[ti], "reader saw the value go down");
                        prev[ti] = v;
                        g.release(&mut s, &mut k);
                        looks[ti] += 1;
                    }
                } else {
                    assert!(!k.idle());
                }
            }
            Some(2) => {
                if touches < 1000 {
                    if let Some(g) = ch.touch(&mut s, &mut k) {
                        let v = *g.value(&s);
                        g.set(&mut s, v + 1);
                        g.release(&mut s, &mut k);
                        touches += 1;
                    }
                } else {
                    assert!(!k.idle());
                }
            }
            _ => {
                k.kick(0).unwrap();
                k.kick(1).unwrap();
                k.kick(2).unwrap();
            }
        }
    }
    let g = ch.try_look(&mut s, &mut k).unwrap();
    assert_eq!(*g.value(&s), 1000);
    g.release(&mut s, &mut k);
}

#[test]
fn sc5_idle_kick_race_banks_wakeups() {
    // five kicks land while the task is idle; it consumes one per wake and
    // wakes four more times without any further kick
    let mut k = setup(1, &[1]);
    assert_eq!(pendsv(&mut k), Some(0));
    // the task goes idle with nothing banked
    assert!(!k.idle());
    assert_eq!(pendsv(&mut k), None);
    // interrupt context: five kicks in rapid succession
    for _ in 0..5 {
        k.kick(0).unwrap();
    }
    assert_eq!(pendsv(&mut k), Some(0));
    // the task resumes once, consuming one kick: four remain banked
    assert!(k.idle());
    assert_eq!(k.ev_cnt(0), 4);
    // it loops and idles again: four more wakes come for free
    for _ in 0..4 {
        assert!(k.idle());
    }
    assert!(!k.idle());
    assert_eq!(k.ev_cnt(0), 0);
}

#[test]
fn sc6_stack_overflow_traps_at_context_save() {
    // a runaway stack is caught by the save hook's bounds check before
    // anything is overwritten
    let mut k = setup(1, &[1]);
    assert_eq!(pendsv(&mut k), Some(0));
    let task = k.task_current().unwrap();
    // the task's recursion pushed the stack pointer below its stack
    let runaway_sp = task.sp_start.wrapping_sub(64);
    let r = k.save_sp(runaway_sp, task.sp_start);
    assert_eq!(r.unwrap_err(), minimult_cortex_m::MTErr::StackShortage);
}
