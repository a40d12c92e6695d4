use nar20_1::nar_stamp::{checkOverlap, checkSame, convToStr, merge, newStamp, MAX_STAMP_IDS};

#[test]
fn overlap_of_stamps() {
    let a = newStamp(&vec![1, 2, 3]);
    let b = newStamp(&vec![4, 3]);
    let c = newStamp(&vec![5]);
    assert!(checkOverlap(&a, &b));
    assert!(checkOverlap(&b, &a));
    assert!(!checkOverlap(&a, &c));
    assert!(!checkOverlap(&c, &a));
    assert!(!checkOverlap(&newStamp(&vec![]), &a));
}

#[test]
fn merge_interleaves_ids() {
    let a = newStamp(&vec![1, 3, 5, 7]);
    let b = newStamp(&vec![2, 4]);
    assert_eq!(merge(&a, &b).ids, vec![1, 2, 3, 4, 5, 7]);
    assert_eq!(merge(&b, &a).ids, vec![2, 1, 4, 3, 5, 7]);
}

#[test]
fn merge_keeps_at_most_the_limit() {
    let a = newStamp(&(0..100).collect::<Vec<i64>>());
    let b = newStamp(&(100..200).collect::<Vec<i64>>());
    let m = merge(&a, &b);
    assert_eq!(m.ids.len(), MAX_STAMP_IDS);
    assert_eq!(MAX_STAMP_IDS, 120);
    assert_eq!(m.ids[0], 0);
    assert_eq!(m.ids[1], 100);
    assert_eq!(m.ids[119], 159);
}

#[test]
fn same_stamps() {
    assert!(checkSame(&newStamp(&vec![1, 2]), &newStamp(&vec![1, 2])));
    assert!(!checkSame(&newStamp(&vec![1, 2]), &newStamp(&vec![2, 1])));
    assert!(!checkSame(&newStamp(&vec![1, 2]), &newStamp(&vec![1, 2, 3])));
    assert!(checkSame(&newStamp(&vec![]), &newStamp(&vec![])));
}

#[test]
fn stamp_as_text() {
    assert_eq!(convToStr(&newStamp(&vec![5])), "5");
    assert_eq!(convToStr(&newStamp(&vec![1, -2, 30])), "1,-2,30");
    assert_eq!(convToStr(&newStamp(&vec![i64::MIN, i64::MAX])), "-9223372036854775808,9223372036854775807");
}

#[test]
fn stamp_clone_keeps_ids() {
    let a = newStamp(&vec![3, 4]);
    assert_eq!(a.clone().ids, vec![3, 4]);
}
