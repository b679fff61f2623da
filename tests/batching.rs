use slimp::batch::{plan_batches, Batcher};

#[test]
fn five_records_in_batches_of_two() {
    let plan = plan_batches(vec![1, 2, 3, 4, 5], 2);
    let sizes: Vec<usize> = plan.iter().map(|b| b.records.len()).collect();
    let totals: Vec<usize> = plan.iter().map(|b| b.total).collect();
    assert_eq!(sizes, vec![2, 2, 1]);
    assert_eq!(totals, vec![2, 4, 5]);
    assert_eq!(plan[2].records, vec![5]);
}

#[test]
fn batch_count_is_rounded_up() {
    for b in 0..12usize {
        for k in 1..5usize {
            let plan = plan_batches((0..b).collect(), k);
            assert_eq!(plan.len(), (b + k - 1) / k);
            assert!(plan.iter().all(|x| x.records.len() <= k && !x.records.is_empty()));
            let all: Vec<usize> = plan.into_iter().flat_map(|x| x.records).collect();
            assert_eq!(all, (0..b).collect::<Vec<_>>());
        }
    }
}

#[test]
fn batcher_flushes_when_full_and_at_end() {
    let mut b = Batcher::new(2);
    assert!(b.push("a").is_none());
    let f = b.push("b").unwrap();
    assert_eq!(f.records, vec!["a", "b"]);
    assert_eq!(f.total, 2);
    assert!(b.push("c").is_none());
    let last = b.finish().unwrap();
    assert_eq!(last.records, vec!["c"]);
    assert_eq!(last.total, 3);
    let empty: Batcher<u8> = Batcher::new(3);
    assert!(empty.finish().is_none());
}
