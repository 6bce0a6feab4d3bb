use stepsort::pool::{occurrences, Pool};
use stepsort::stepper::{pass, run_passes, step, StepCursor};

fn collect(pool: &Pool) -> Vec<u16> {
    let mut out: Vec<u16> = Vec::new();
    let mut i: usize = 0;
    while i < pool.len() {
        out.push(pool.value_at(i));
        i += 1;
    }
    out
}

#[test]
fn single_step_swaps_one_pair_and_advances_cursor() {
    let mut pool = Pool::from_values(vec![3, 1, 2]).unwrap();
    let mut cursor = StepCursor::new();

    step(&mut pool, &mut cursor);
    assert_eq!(collect(&pool), vec![1, 3, 2]);
    assert_eq!(cursor.index(), 1);

    step(&mut pool, &mut cursor);
    assert_eq!(collect(&pool), vec![1, 2, 3]);
    assert_eq!(cursor.index(), 0);
}

#[test]
fn step_leaves_ordered_pair_alone() {
    let mut pool = Pool::from_values(vec![1, 3, 2]).unwrap();
    let mut cursor = StepCursor::new();
    step(&mut pool, &mut cursor);
    assert_eq!(collect(&pool), vec![1, 3, 2]);
    assert_eq!(cursor.index(), 1);
}

#[test]
fn step_on_single_element_pool_is_idle() {
    let mut pool = Pool::generate(1);
    let mut cursor = StepCursor::new();
    step(&mut pool, &mut cursor);
    assert_eq!(collect(&pool), vec![1]);
    assert_eq!(cursor.index(), 0);
}

#[test]
fn pass_moves_max_to_last_position() {
    let mut pool = Pool::from_values(vec![3, 1, 2]).unwrap();
    let mut cursor = StepCursor::new();
    pass(&mut pool, &mut cursor);
    assert_eq!(collect(&pool), vec![1, 2, 3]);
    assert_eq!(cursor.index(), 0);

    let mut pool = Pool::from_values(vec![2, 3, 1]).unwrap();
    let mut cursor = StepCursor::new();
    pass(&mut pool, &mut cursor);
    assert_eq!(collect(&pool), vec![2, 1, 3]);
}

#[test]
fn multiset_is_preserved_by_stepping() {
    let mut pool = Pool::generate(8);
    let mut cursor = StepCursor::new();
    for _ in 0..20 {
        step(&mut pool, &mut cursor);
    }
    let values = collect(&pool);
    for x in 1u16..=8u16 {
        assert_eq!(occurrences(&values, x), 1);
    }
}

#[test]
fn n_passes_fully_sort_any_generated_pool() {
    let mut pool = Pool::generate(5);
    let mut cursor = StepCursor::new();
    run_passes(&mut pool, &mut cursor, 5);
    assert_eq!(collect(&pool), vec![1, 2, 3, 4, 5]);
}

#[test]
fn sorted_pool_is_left_unchanged_by_further_steps() {
    let mut pool = Pool::generate(6);
    let mut cursor = StepCursor::new();
    run_passes(&mut pool, &mut cursor, 6);
    assert_eq!(collect(&pool), vec![1, 2, 3, 4, 5, 6]);
    for _ in 0..17 {
        step(&mut pool, &mut cursor);
    }
    assert_eq!(collect(&pool), vec![1, 2, 3, 4, 5, 6]);
}
