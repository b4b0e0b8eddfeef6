use praia::decimal::{entry_name, parse_u32_range, push_decimal};
use praia::format::{index_to_text, parse_index_text};
use praia::index::Index;
use praia::scan::{entry_id_of, id_bound_of, is_index_name};
use praia::text::{find_in, trim_end_in};

#[test]
fn entry_names_are_shortest_decimals() {
    assert_eq!(entry_name(0), b"0".to_vec());
    assert_eq!(entry_name(7), b"7".to_vec());
    assert_eq!(entry_name(10), b"10".to_vec());
    assert_eq!(entry_name(1203), b"1203".to_vec());
    assert_eq!(entry_name(u32::MAX), b"4294967295".to_vec());
    let mut out = b"a/".to_vec();
    push_decimal(&mut out, 42);
    assert_eq!(out, b"a/42".to_vec());
}

#[test]
fn numbers_are_read_as_the_standard_parser_reads_them() {
    let cases: Vec<&str> = vec![
        "", "+", "-", "0", "+0", "-0", "007", "12a", " 1", "1 ", "4294967295", "4294967296",
        "00000000004294967295", "99999999999999999999", "++1", "+-1", "1+", "\u{663}",
    ];
    for c in cases {
        let got = parse_u32_range(c.as_bytes(), 0, c.len());
        assert_eq!(got, c.parse::<u32>().ok(), "{:?}", c);
    }
    assert_eq!(parse_u32_range(b"ab123cd", 2, 5), Some(123));
    assert_eq!(parse_u32_range(b"ab123cd", 2, 2), None);
}

#[test]
fn names_round_trip() {
    for n in [0u32, 1, 9, 10, 99, 100, 65535, 4294967294, u32::MAX] {
        let name = entry_name(n);
        assert_eq!(parse_u32_range(&name, 0, name.len()), Some(n));
        assert_eq!(name, n.to_string().into_bytes());
    }
}

#[test]
fn find_gives_the_first_position() {
    assert_eq!(find_in(b"a b c", 0, 5, b' '), 1);
    assert_eq!(find_in(b"a b c", 2, 5, b' '), 3);
    assert_eq!(find_in(b"a b c", 4, 5, b' '), 5);
    assert_eq!(find_in(b"a b c", 2, 3, b' '), 3);
    assert_eq!(find_in(b"", 0, 0, b' '), 0);
}

#[test]
fn trimming_takes_off_white_space_only() {
    let cases: Vec<&str> = vec![
        "", "12", "12\n", "12 \t\r\n", "\n\n", " 12", "12\u{85}", "12\u{a0}\u{2028}\u{2029}",
        "12\u{202f}\u{205f}\u{3000}", "12\u{2000}\u{200a}", "12\u{200b}", "12\u{1680}", "é\u{a0}",
        "12\u{b}\u{c}", "12\u{1c}",
    ];
    for c in cases {
        let e = trim_end_in(c.as_bytes(), 0, c.len());
        assert_eq!(&c.as_bytes()[..e], c.trim_end().as_bytes(), "{:?}", c);
    }
    assert_eq!(trim_end_in(b"  ab  ", 2, 6), 4);
    assert_eq!(trim_end_in(b"    ", 1, 3), 1);
}

#[test]
fn index_keeps_one_counter_per_issue() {
    let mut index = Index::new();
    assert_eq!(index.next_issue_id(), 0);
    assert_eq!(index.comment_count_of(0), None);
    index.set_comment_count(4, 1);
    index.set_comment_count(2, 9);
    index.set_comment_count(4, 3);
    index.set_issue_count(5);
    let mut pairs = index.pairs();
    pairs.sort();
    assert_eq!(pairs, vec![(2, 9), (4, 3)]);
    assert_eq!(index.comment_count_of(4), Some(3));
    assert_eq!(index.comment_count_of(2), Some(9));
    assert_eq!(index.comment_count_of(3), None);
    let text = index_to_text(&index);
    assert!(text == b"5\n4 3\n2 9\n".to_vec() || text == b"5\n2 9\n4 3\n".to_vec());
    let back = parse_index_text(&index_to_text(&index)).unwrap();
    assert_eq!(back.next_issue_id(), 5);
    assert_eq!(back.pairs().len(), 2);
    assert_eq!(back.comment_count_of(4), Some(3));
    assert_eq!(back.comment_count_of(2), Some(9));
}

#[test]
fn bounds_are_one_past_the_largest_name() {
    assert_eq!(id_bound_of(&Vec::new()), Some(0));
    assert_eq!(id_bound_of(&vec![b"0".to_vec()]), Some(1));
    assert_eq!(id_bound_of(&vec![b"3".to_vec(), b"11".to_vec(), b"+4".to_vec()]), Some(12));
    assert_eq!(id_bound_of(&vec![b"3".to_vec(), b"".to_vec()]), None);
    assert_eq!(id_bound_of(&vec![b"4294967295".to_vec()]), None);
    assert_eq!(entry_id_of(&b"12".to_vec()), Some(12));
    assert_eq!(entry_id_of(&b"index.txt".to_vec()), None);
    assert!(is_index_name(&b"index.txt".to_vec()));
    assert!(!is_index_name(&b"index.tx".to_vec()));
    assert!(!is_index_name(&b"index.txt2".to_vec()));
    assert!(!is_index_name(&b"Index.txt".to_vec()));
}
