use freq_domain::parse::{parse_isize_list, parse_trimmed_isize, parse_usize_list};

#[test]
fn trimmed_value_parses() {
    assert_eq!(parse_trimmed_isize(b" 1234000\n"), Some(1234000));
    assert_eq!(parse_trimmed_isize(b"-7"), Some(-7));
    assert_eq!(parse_trimmed_isize(b"+42"), Some(42));
    assert_eq!(parse_trimmed_isize(b"0"), Some(0));
}

#[test]
fn trimmed_value_rejects_garbage() {
    assert_eq!(parse_trimmed_isize(b""), None);
    assert_eq!(parse_trimmed_isize(b"  \n"), None);
    assert_eq!(parse_trimmed_isize(b"12 34"), None);
    assert_eq!(parse_trimmed_isize(b"12a"), None);
    assert_eq!(parse_trimmed_isize(b"-"), None);
}

#[test]
fn trimmed_value_handles_type_bounds() {
    assert_eq!(parse_trimmed_isize(b"9223372036854775807"), Some(isize::MAX));
    assert_eq!(parse_trimmed_isize(b"-9223372036854775808"), Some(isize::MIN));
    assert_eq!(parse_trimmed_isize(b"9223372036854775808"), None);
    assert_eq!(parse_trimmed_isize(b"-9223372036854775809"), None);
    assert_eq!(parse_trimmed_isize(b"99999999999999999999999999"), None);
}

#[test]
fn signed_list_parses() {
    assert_eq!(parse_isize_list(b"400 100\t300\n200\n"), Some(vec![400, 100, 300, 200]));
    assert_eq!(parse_isize_list(b"-5 +3"), Some(vec![-5, 3]));
    assert_eq!(parse_isize_list(b""), Some(vec![]));
    assert_eq!(parse_isize_list(b"1 x 3"), None);
    assert_eq!(parse_isize_list(b"1 2 9223372036854775808"), None);
}

#[test]
fn unsigned_list_parses() {
    assert_eq!(parse_usize_list(b"0 1 2 3"), Some(vec![0, 1, 2, 3]));
    assert_eq!(parse_usize_list(b"+7"), Some(vec![7]));
    assert_eq!(parse_usize_list(b"-1"), None);
    assert_eq!(parse_usize_list(b"-0"), None);
    assert_eq!(parse_usize_list(b"3.5"), None);
}
