use stepsort::pool::{occurrences, Pool};

fn collect(pool: &Pool) -> Vec<u16> {
    let mut out: Vec<u16> = Vec::new();
    let mut i: usize = 0;
    while i < pool.len() {
        out.push(pool.value_at(i));
        i += 1;
    }
    out
}

#[test]
fn generate_floor_zero_gives_single_one() {
    let pool = Pool::generate(0);
    assert_eq!(pool.len(), 1);
    assert_eq!(pool.value_at(0), 1);
}

#[test]
fn generate_len_matches_request() {
    let pool = Pool::generate(37);
    assert_eq!(pool.len(), 37);
}

#[test]
fn generate_is_permutation() {
    let pool = Pool::generate(10);
    let values = collect(&pool);
    for x in 1u16..=10u16 {
        assert_eq!(occurrences(&values, x), 1);
    }
    assert_eq!(occurrences(&values, 0), 0);
    assert_eq!(occurrences(&values, 11), 0);
}

#[test]
fn occurrences_counts_duplicates() {
    let values: Vec<u16> = vec![2, 2, 3, 7, 2];
    assert_eq!(occurrences(&values, 2), 3);
    assert_eq!(occurrences(&values, 3), 1);
    assert_eq!(occurrences(&values, 5), 0);
}

#[test]
fn from_values_accepts_permutation() {
    let pool = Pool::from_values(vec![3, 1, 2]).unwrap();
    assert_eq!(collect(&pool), vec![3, 1, 2]);
}

#[test]
fn from_values_rejects_duplicate() {
    assert!(Pool::from_values(vec![1, 1, 3]).is_none());
}

#[test]
fn from_values_rejects_out_of_range() {
    assert!(Pool::from_values(vec![1, 2, 4]).is_none());
    assert!(Pool::from_values(vec![0, 1, 2]).is_none());
}

#[test]
fn from_values_rejects_empty() {
    assert!(Pool::from_values(Vec::new()).is_none());
}
