use stepsort::pool::Pool;
use stepsort::scheduler::StepScheduler;
use stepsort::session::Session;
use stepsort::stepper::StepCursor;

fn collect(pool: &Pool) -> Vec<u16> {
    let mut out: Vec<u16> = Vec::new();
    let mut i: usize = 0;
    while i < pool.len() {
        out.push(pool.value_at(i));
        i += 1;
    }
    out
}

fn fixed_session(values: Vec<u16>, now_ms: u64) -> Session {
    Session {
        pool: Pool::from_values(values).unwrap(),
        cursor: StepCursor::new(),
        scheduler: StepScheduler::new(now_ms),
    }
}

#[test]
fn tick_before_interval_changes_nothing() {
    let mut session = fixed_session(vec![3, 1, 2], 0);
    session.tick(50, false, 3);
    assert_eq!(collect(&session.pool), vec![3, 1, 2]);
    assert_eq!(session.cursor.index(), 0);
}

#[test]
fn tick_after_interval_applies_one_step() {
    let mut session = fixed_session(vec![3, 1, 2], 0);
    session.tick(100, false, 3);
    assert_eq!(collect(&session.pool), vec![1, 3, 2]);
    assert_eq!(session.cursor.index(), 1);

    session.tick(150, false, 3);
    assert_eq!(collect(&session.pool), vec![1, 3, 2]);
    assert_eq!(session.cursor.index(), 1);

    session.tick(200, false, 3);
    assert_eq!(collect(&session.pool), vec![1, 2, 3]);
    assert_eq!(session.cursor.index(), 0);
}

#[test]
fn restart_discards_cursor_position() {
    let mut session = fixed_session(vec![4, 3, 2, 1], 0);
    session.tick(100, false, 4);
    session.tick(200, false, 4);
    assert_eq!(session.cursor.index(), 2);

    session.restart(4);
    assert_eq!(session.cursor.index(), 0);
    assert_eq!(session.pool.len(), 4);
}

#[test]
fn tick_with_restart_replaces_pool_and_resets_cursor() {
    let mut session = fixed_session(vec![3, 1, 2], 0);
    session.tick(100, false, 3);
    assert_eq!(session.cursor.index(), 1);

    session.tick(120, true, 7);
    assert_eq!(session.pool.len(), 7);
    assert_eq!(session.cursor.index(), 0);
}

#[test]
fn restart_with_zero_target_floors_to_one() {
    let mut session = Session::new(5, 0);
    session.tick(0, true, 0);
    assert_eq!(session.pool.len(), 1);
    assert_eq!(session.pool.value_at(0), 1);
}

#[test]
fn new_session_starts_at_cursor_zero() {
    let session = Session::new(9, 42);
    assert_eq!(session.pool.len(), 9);
    assert_eq!(session.cursor.index(), 0);
}
