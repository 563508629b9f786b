use slice_volume::error::{ErrorKind, PipelineError};
use slice_volume::locator::{
    find_unclassified, locate, order_slices, precedes, DirectoryEntry, DirectoryListing,
    DiscoveryPolicy, SliceRef,
};

fn slice(name: &str) -> DirectoryEntry {
    DirectoryEntry::Slice(name.to_string())
}

fn names(refs: &[SliceRef]) -> Vec<String> {
    refs.iter().map(|r| r.name.clone()).collect()
}

#[test]
fn precedes_is_strict_and_bytewise() {
    assert!(precedes(b"a", b"b"));
    assert!(!precedes(b"b", b"a"));
    assert!(!precedes(b"same", b"same"));
    assert!(precedes(b"", b"a"));
    assert!(!precedes(b"", b""));
    assert!(!precedes(b"a", b""));
    assert!(precedes(b"ab", b"b"));
    assert!(precedes(b"a", b"ab"));
    assert!(precedes(b"Z", b"a"));
    assert!(precedes(b"CT10", b"CT9"));
    assert!(precedes(&[0x7f], &[0x80]));
}

#[test]
fn precedes_agrees_with_the_order_of_strings() {
    let samples = ["", "a", "ab", "b", "CT000001", "CT000010", "ct", "\u{e9}t\u{e9}", "z"];
    for a in samples {
        for b in samples {
            assert_eq!(precedes(a.as_bytes(), b.as_bytes()), a < b);
        }
    }
}

#[test]
fn missing_directory_is_not_found() {
    let r = locate(&DirectoryListing::Missing, DiscoveryPolicy::SkipUnclassified);
    assert_eq!(r.unwrap_err(), PipelineError::NotFound);
    let r = locate(&DirectoryListing::Missing, DiscoveryPolicy::RejectUnclassified);
    assert_eq!(r.unwrap_err().kind(), ErrorKind::NotFound);
}

#[test]
fn empty_directory_has_no_slices() {
    let r = locate(&DirectoryListing::Entries(vec![]), DiscoveryPolicy::RejectUnclassified);
    assert!(r.unwrap().is_empty());
}

#[test]
fn slices_are_ordered_by_name() {
    let listing = DirectoryListing::Entries(vec![
        slice("CT000003"),
        slice("CT000001"),
        slice("CT000002"),
    ]);
    let refs = locate(&listing, DiscoveryPolicy::RejectUnclassified).unwrap();
    assert_eq!(names(&refs), vec!["CT000001", "CT000002", "CT000003"]);
    assert_eq!(refs.iter().map(|r| r.index).collect::<Vec<_>>(), vec![0, 1, 2]);
    assert_eq!(refs.iter().map(|r| r.entry).collect::<Vec<_>>(), vec![1, 2, 0]);
}

#[test]
fn order_does_not_depend_on_the_listing() {
    let all = ["s5", "s1", "s4", "s2", "s3"];
    let rotations: Vec<Vec<&str>> = (0..all.len())
        .map(|k| all.iter().cycle().skip(k).take(all.len()).copied().collect())
        .collect();
    for listed in rotations {
        let entries: Vec<DirectoryEntry> = listed.iter().map(|n| slice(n)).collect();
        let refs = order_slices(&entries);
        assert_eq!(names(&refs), vec!["s1", "s2", "s3", "s4", "s5"]);
        for (k, r) in refs.iter().enumerate() {
            assert_eq!(r.index, k);
            assert_eq!(listed[r.entry], r.name);
        }
    }
}

#[test]
fn position_is_the_rank_of_the_name() {
    let entries = vec![slice("b"), slice("d"), slice("a"), slice("c"), slice("aa")];
    let refs = order_slices(&entries);
    for r in &refs {
        let smaller = refs.iter().filter(|o| o.name < r.name).count();
        assert_eq!(r.index, smaller);
    }
}

#[test]
fn equal_names_keep_the_order_of_the_listing() {
    let entries = vec![slice("b"), slice("a"), slice("b"), slice("a")];
    let refs = order_slices(&entries);
    assert_eq!(names(&refs), vec!["a", "a", "b", "b"]);
    assert_eq!(refs.iter().map(|r| r.entry).collect::<Vec<_>>(), vec![1, 3, 0, 2]);
}

#[test]
fn unclassified_entries_are_skipped_under_the_skipping_policy() {
    let listing = DirectoryListing::Entries(vec![
        slice("s2"),
        DirectoryEntry::Unclassified,
        slice("s1"),
        DirectoryEntry::Unclassified,
    ]);
    let refs = locate(&listing, DiscoveryPolicy::SkipUnclassified).unwrap();
    assert_eq!(names(&refs), vec!["s1", "s2"]);
    assert_eq!(refs.iter().map(|r| r.entry).collect::<Vec<_>>(), vec![2, 0]);
    assert_eq!(refs.iter().map(|r| r.index).collect::<Vec<_>>(), vec![0, 1]);
}

#[test]
fn unclassified_entry_fails_discovery_under_the_rejecting_policy() {
    let listing = DirectoryListing::Entries(vec![
        slice("s2"),
        DirectoryEntry::Unclassified,
        slice("s1"),
        DirectoryEntry::Unclassified,
    ]);
    let e = locate(&listing, DiscoveryPolicy::RejectUnclassified).unwrap_err();
    assert_eq!(e, PipelineError::Discovery { entry: 1 });
    assert_eq!(e.kind(), ErrorKind::Discovery);
    assert_eq!(e.place(), Some(1));
}

#[test]
fn find_unclassified_gives_the_first() {
    assert_eq!(find_unclassified(&vec![]), None);
    assert_eq!(find_unclassified(&vec![slice("a"), slice("b")]), None);
    assert_eq!(find_unclassified(&vec![DirectoryEntry::Unclassified]), Some(0));
    assert_eq!(
        find_unclassified(&vec![
            slice("a"),
            slice("b"),
            DirectoryEntry::Unclassified,
            DirectoryEntry::Unclassified
        ]),
        Some(2)
    );
}

#[test]
fn only_unclassified_entries_leave_no_slices() {
    let listing = DirectoryListing::Entries(vec![
        DirectoryEntry::Unclassified,
        DirectoryEntry::Unclassified,
    ]);
    assert!(locate(&listing, DiscoveryPolicy::SkipUnclassified).unwrap().is_empty());
}

#[test]
fn many_slices_come_out_sorted() {
    let mut listed: Vec<String> = (0..200u32).map(|k| format!("IM{:05}", (k * 77) % 200)).collect();
    listed.reverse();
    let entries: Vec<DirectoryEntry> = listed.iter().map(|n| slice(n)).collect();
    let refs = order_slices(&entries);
    assert_eq!(refs.len(), 200);
    for (k, r) in refs.iter().enumerate() {
        assert_eq!(r.name, format!("IM{:05}", k));
        assert_eq!(r.index, k);
    }
}
