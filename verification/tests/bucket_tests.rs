use picurator::buckets::SizeBuckets;

fn demo_index() -> SizeBuckets {
    let mut b = SizeBuckets::new();
    assert!(b.consider_entry(true, b"a.jpg", String::from("a.jpg"), 500));
    assert!(b.consider_entry(true, b"b.jpg", String::from("b.jpg"), 500));
    assert!(b.consider_entry(true, b"c.png", String::from("c.png"), 500));
    assert!(b.consider_entry(true, b"d.jpg", String::from("d.jpg"), 700));
    b
}

#[test]
fn groups_by_exact_byte_size() {
    let b = demo_index();
    assert_eq!(b.len(), 4);
    assert_eq!(
        b.bucket(500),
        vec![String::from("a.jpg"), String::from("b.jpg"), String::from("c.png")]
    );
    assert_eq!(b.bucket(700), vec![String::from("d.jpg")]);
    assert_eq!(b.bucket(600), Vec::<String>::new());
}

#[test]
fn sizes_are_distinct_and_complete() {
    let b = demo_index();
    let mut sizes = b.sizes();
    sizes.sort();
    assert_eq!(sizes, vec![500, 700]);
}

#[test]
fn ineligible_entries_are_not_filed() {
    let mut b = SizeBuckets::new();
    // hidden file
    assert!(!b.consider_entry(true, b".a.jpg", String::from(".a.jpg"), 500));
    // hidden directory, as the walker's pruning predicate sees it
    assert!(!b.consider_entry(false, b".cache", String::from(".cache"), 500));
    // directory with an image-like name
    assert!(!b.consider_entry(false, b"a.jpg", String::from("a.jpg"), 500));
    // zero-byte file
    assert!(!b.consider_entry(true, b"a.jpg", String::from("a.jpg"), 0));
    // wrong extension
    assert!(!b.consider_entry(true, b"a.txt", String::from("a.txt"), 500));
    assert_eq!(b.len(), 0);
    assert_eq!(b.bucket(500), Vec::<String>::new());
    assert_eq!(b.sizes(), Vec::<u64>::new());
}

#[test]
fn rebuilding_from_same_entries_is_identical() {
    let one = demo_index();
    let two = demo_index();
    let mut s1 = one.sizes();
    let mut s2 = two.sizes();
    s1.sort();
    s2.sort();
    assert_eq!(s1, s2);
    for s in s1 {
        assert_eq!(one.bucket(s), two.bucket(s));
    }
}
