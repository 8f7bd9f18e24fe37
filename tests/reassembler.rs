use bitrate_optimizer::reassemble::{
    manifest, order_segments, reassemble, segment_index, ReassemblyError,
};

fn names(list: &[&str]) -> Vec<Vec<u8>> {
    list.iter().map(|s| s.as_bytes().to_vec()).collect()
}

#[test]
fn shuffled_listing_is_put_in_index_order() {
    let listing = names(&["00002.opus", "00000.opus", "00001.opus"]);
    let m = reassemble(&listing, 3).unwrap();
    assert_eq!(
        String::from_utf8(m).unwrap(),
        "file 'conc/00000.opus'\nfile 'conc/00001.opus'\nfile 'conc/00002.opus'\n"
    );
    assert_eq!(order_segments(&listing, 3).unwrap(), vec![1, 2, 0]);
}

#[test]
fn missing_segment_fails_reassembly() {
    let listing = names(&["00002.opus", "00000.opus"]);
    assert_eq!(reassemble(&listing, 3), Err(ReassemblyError::Missing(1)));
    assert_eq!(order_segments(&listing, 3), Err(ReassemblyError::Missing(1)));
}

#[test]
fn lowest_missing_index_is_reported() {
    let listing = names(&["00003.opus"]);
    assert_eq!(reassemble(&listing, 5), Err(ReassemblyError::Missing(0)));
}

#[test]
fn duplicate_index_fails() {
    let listing = names(&["00001.opus", "00000.opus", "1.opus"]);
    assert_eq!(reassemble(&listing, 3), Err(ReassemblyError::Duplicate(1)));
}

#[test]
fn index_out_of_range_fails() {
    let listing = names(&["00000.opus", "00007.opus", "00001.opus"]);
    assert_eq!(reassemble(&listing, 3), Err(ReassemblyError::OutOfRange(7)));
}

#[test]
fn name_without_index_fails() {
    let listing = names(&["00000.opus", "notes.txt"]);
    assert_eq!(reassemble(&listing, 2), Err(ReassemblyError::UnrecognizedName(1)));
}

#[test]
fn first_fault_in_listing_order_wins() {
    let listing = names(&["00009.opus", "x.opus"]);
    assert_eq!(reassemble(&listing, 2), Err(ReassemblyError::OutOfRange(9)));
}

#[test]
fn no_segments_give_an_empty_list() {
    let listing: Vec<Vec<u8>> = Vec::new();
    assert_eq!(reassemble(&listing, 0), Ok(Vec::new()));
}

#[test]
fn segment_index_from_name() {
    assert_eq!(segment_index(b"00003.opus"), Some(3));
    assert_eq!(segment_index(b"00120.wav"), Some(120));
    assert_eq!(segment_index(b"7"), Some(7));
    assert_eq!(segment_index(b".opus"), None);
    assert_eq!(segment_index(b"a1.opus"), None);
    assert_eq!(segment_index(b"12a.opus"), None);
    assert_eq!(segment_index(b"99999999999999999999999.opus"), None);
}

#[test]
fn manifest_follows_the_given_order() {
    let listing = names(&["b.opus", "a.opus"]);
    let m = manifest(&listing, &vec![1, 0, 1]);
    assert_eq!(
        String::from_utf8(m).unwrap(),
        "file 'conc/a.opus'\nfile 'conc/b.opus'\nfile 'conc/a.opus'\n"
    );
    assert!(manifest(&listing, &Vec::new()).is_empty());
}
