use autodirector_fix::pattern::{bytes_match, find_pattern, PatternSearch};

#[test]
fn matches_wildcard_pattern() {
    let pattern = [Some(0xe8), None, None, Some(0x48)];

    assert!(bytes_match(&[0xe8, 0x11, 0x22, 0x48], &pattern));
    assert!(!bytes_match(&[0xe8, 0x11, 0x22, 0x49], &pattern));
}

#[test]
fn finds_unique_pattern_match() {
    let data = [0x90, 0xe8, 0x01, 0x48, 0x90];
    let pattern = [Some(0xe8), None, Some(0x48)];

    assert_eq!(
        find_pattern(&data, &pattern),
        PatternSearch {
            matches: 1,
            unique_offset: Some(1),
        }
    );
}

#[test]
fn rejects_ambiguous_pattern_matches() {
    let data = [0x90, 0xe8, 0x01, 0x48, 0xe8, 0x02, 0x48, 0x90];
    let pattern = [Some(0xe8), None, Some(0x48)];

    assert_eq!(
        find_pattern(&data, &pattern),
        PatternSearch {
            matches: 2,
            unique_offset: None,
        }
    );
}

#[test]
fn short_data_holds_no_match() {
    let pattern = [Some(0xe8), None];
    let nothing = PatternSearch {
        matches: 0,
        unique_offset: None,
    };
    assert_eq!(find_pattern(&[0xe8], &pattern), nothing);
    assert_eq!(find_pattern(&[], &pattern), nothing);
    assert_eq!(find_pattern(&[0xe9, 0xe8], &pattern), nothing);
}

#[test]
fn overlapping_matches_count() {
    let pattern = [Some(1), None, Some(1)];
    assert_eq!(
        find_pattern(&[1, 1, 1, 1, 1], &pattern),
        PatternSearch {
            matches: 3,
            unique_offset: None,
        }
    );
}

#[test]
fn a_match_at_either_end_is_found() {
    let pattern = [Some(7), None];
    assert_eq!(find_pattern(&[7, 0, 0], &pattern).unique_offset, Some(0));
    assert_eq!(find_pattern(&[0, 7, 0], &pattern).unique_offset, Some(1));
    assert_eq!(find_pattern(&[0, 0, 7], &pattern).unique_offset, None);
}

#[test]
fn lengths_have_to_agree() {
    assert!(!bytes_match(&[1, 2], &[Some(1)]));
    assert!(!bytes_match(&[1], &[Some(1), None]));
    assert!(bytes_match(&[], &[]));
}
