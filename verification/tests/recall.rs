use engramdb::recall::{exact_topk, Recall};

#[test]
fn results_are_counted_against_the_exact_ones() {
    let mut r = Recall::new();
    r.count(&[1, 2, 3], &[1, 9, 3]);
    r.count(&[4, 5], &[5, 4]);
    r.count(&[6], &[]);
    assert_eq!(r, Recall { hits: 4, total: 6, top1: 1 });
}

#[test]
fn the_best_come_first_and_equals_keep_their_order() {
    assert_eq!(exact_topk(&[5, 9, 9, -1, 7], 3), vec![1, 2, 4]);
    assert_eq!(exact_topk(&[5, 9], 10), vec![1, 0]);
    assert!(exact_topk(&[], 3).is_empty());
    assert!(exact_topk(&[1], 0).is_empty());
}
