use kotva_mail::imap::sequence::SequenceSet;

#[test]
fn parses_and_resolves() {
    let set = SequenceSet::parse("1:3,5,*").unwrap();
    assert_eq!(set.resolve_seqs(6), vec![1, 2, 3, 5, 6]);
}

#[test]
fn range_is_order_independent() {
    let set = SequenceSet::parse("5:3").unwrap();
    assert_eq!(set.resolve_seqs(10), vec![3, 4, 5]);
}

#[test]
fn star_range() {
    let set = SequenceSet::parse("2:*").unwrap();
    assert_eq!(set.resolve_seqs(4), vec![2, 3, 4]);
    assert!(set.contains(100, 100));
}

#[test]
fn rejects_malformed() {
    assert!(SequenceSet::parse("").is_none());
    assert!(SequenceSet::parse("abc").is_none());
    assert!(SequenceSet::parse("0").is_none());
    assert!(SequenceSet::parse("1:").is_none());
    assert!(SequenceSet::parse("1:2:3").is_none());
    assert!(SequenceSet::parse(",").is_none());
}

#[test]
fn ranges_resolved_normalizes_and_resolves_star() {
    let set = SequenceSet::parse("5:3,10,*").unwrap();
    assert_eq!(set.ranges_resolved(100), vec![(3, 5), (10, 10), (100, 100)]);
}

#[test]
fn saved_result_reference_and_from_uids() {
    let saved = SequenceSet::parse("$").unwrap();
    assert!(saved.is_saved());
    let set = SequenceSet::from_uids(&[7, 3, 9]);
    assert!(!set.is_saved());
    assert_eq!(set.resolve_seqs(10), vec![3, 7, 9]);
    assert!(set.contains(9, 1));
    assert!(!set.contains(8, 10));
}

#[test]
fn resolve_is_ascending_and_deduplicated() {
    let set = SequenceSet::parse("4:2,3,1,*").unwrap();
    assert_eq!(set.resolve_seqs(5), vec![1, 2, 3, 4, 5]);
    assert_eq!(set.resolve_seqs(0), Vec::<u32>::new());
}

#[test]
fn whitespace_around_points_and_plus_sign() {
    let set = SequenceSet::parse(" 2 : +4 ").unwrap();
    assert_eq!(set.resolve_seqs(9), vec![2, 3, 4]);
    assert!(SequenceSet::parse("4294967296").is_none());
}
