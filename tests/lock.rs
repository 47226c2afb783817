use github_wiki_bot::lock::{
    lock_body, parse_holder, LockAcquirer, LockAction, LockCell, LockEvent, LockPhase,
    JITTER_BOUND_MS, SETTLE_MS,
};

#[test]
fn holder_text() {
    assert_eq!(parse_holder(""), None);
    assert_eq!(parse_holder("12"), Some(12));
    assert_eq!(parse_holder("+7"), Some(7));
    assert_eq!(parse_holder("007"), Some(7));
    assert_eq!(parse_holder("+"), None);
    assert_eq!(parse_holder("-1"), None);
    assert_eq!(parse_holder(" 12"), None);
    assert_eq!(parse_holder("12a"), None);
    assert_eq!(parse_holder("18446744073709551615"), Some(u64::MAX));
    assert_eq!(parse_holder("18446744073709551616"), None);
    assert_eq!(lock_body(0), "0");
    assert_eq!(lock_body(1234567890), "1234567890");
    assert_eq!(parse_holder(&lock_body(u64::MAX)), Some(u64::MAX));
}

#[test]
fn uncontended_acquire_takes_five_steps() {
    let mut cell = LockCell::new();
    let (mut me, mut action) = LockAcquirer::new(5);
    let mut actions = vec![action];
    while action != LockAction::Done {
        let event = cell.perform(action);
        action = me.step_with_jitter(event, 0);
        actions.push(action);
        assert!(actions.len() <= 6);
    }
    assert_eq!(
        actions,
        vec![
            LockAction::ReadHolder,
            LockAction::WriteHolder(5),
            LockAction::ReadHolder,
            LockAction::Sleep(SETTLE_MS),
            LockAction::ReadHolder,
            LockAction::Done,
        ]
    );
    assert!(me.is_acquired());
    assert_eq!(cell.read(), Some(5));
}

#[test]
fn race_for_a_free_lock_has_one_winner() {
    let mut cell = LockCell::new();
    let (mut a, mut act_a) = LockAcquirer::new(1);
    let (mut b, mut act_b) = LockAcquirer::new(2);
    // both read the free cell, then both claim it, `b` last
    act_a = a.step_with_jitter(cell.perform(act_a), 0);
    act_b = b.step_with_jitter(cell.perform(act_b), 0);
    assert_eq!(act_a, LockAction::WriteHolder(1));
    assert_eq!(act_b, LockAction::WriteHolder(2));
    act_a = a.step_with_jitter(cell.perform(act_a), 0);
    act_b = b.step_with_jitter(cell.perform(act_b), 0);
    assert_eq!(cell.read(), Some(2));
    // `a` finds a foreign holder and backs off with a jitter
    act_a = a.step_with_jitter(cell.perform(act_a), 1234);
    assert_eq!(a.phase, LockPhase::BackingOff);
    assert_eq!(act_a, LockAction::Sleep(SETTLE_MS + 1234));
    for _ in 0..3 {
        act_b = b.step_with_jitter(cell.perform(act_b), 0);
        act_a = a.step_with_jitter(cell.perform(act_a), 0);
    }
    assert!(b.is_acquired());
    assert_eq!(act_b, LockAction::Done);
    assert!(!a.is_acquired());
    for _ in 0..10 {
        act_a = a.step_with_jitter(cell.perform(act_a), 0);
        assert!(!a.is_acquired());
    }
}

#[test]
fn lost_recheck_starts_over() {
    let (mut me, _) = LockAcquirer::new(5);
    me.step_with_jitter(LockEvent::Holder(Some(5)), 0);
    assert_eq!(me.phase, LockPhase::Settling);
    assert_eq!(me.step_with_jitter(LockEvent::Slept, 0), LockAction::ReadHolder);
    assert_eq!(me.step_with_jitter(LockEvent::Holder(Some(6)), 0), LockAction::ReadHolder);
    assert_eq!(me.phase, LockPhase::Reading);
}

#[test]
fn back_off_sleeps_settle_time_plus_jitter() {
    let (mut me, _) = LockAcquirer::new(5);
    match me.step(LockEvent::Holder(Some(9))) {
        LockAction::Sleep(ms) => {
            assert!(ms >= SETTLE_MS && ms < SETTLE_MS + JITTER_BOUND_MS);
        }
        other => panic!("unexpected {:?}", other),
    }
}

#[test]
fn release_frees_the_cell() {
    let mut cell = LockCell::new();
    cell.write(3);
    assert_eq!(cell.read(), Some(3));
    cell.release();
    assert_eq!(cell.read(), None);
}
