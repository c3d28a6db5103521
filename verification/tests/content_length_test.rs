use dust::download::task::parse_content_length;

#[test]
fn content_size_header_parses() {
    assert_eq!(parse_content_length(Some("104857600")), Some(104857600));
}

#[test]
fn missing_header_is_unavailable() {
    assert_eq!(parse_content_length(None), None);
}

#[test]
fn empty_header_is_unavailable() {
    assert_eq!(parse_content_length(Some("")), None);
}

#[test]
fn leading_plus_is_accepted() {
    assert_eq!(parse_content_length(Some("+123")), Some(123));
}

#[test]
fn plus_alone_is_unavailable() {
    assert_eq!(parse_content_length(Some("+")), None);
}

#[test]
fn non_digits_are_unavailable() {
    assert_eq!(parse_content_length(Some("12a")), None);
    assert_eq!(parse_content_length(Some("-1")), None);
    assert_eq!(parse_content_length(Some(" 7")), None);
}

#[test]
fn largest_size_parses() {
    assert_eq!(parse_content_length(Some("18446744073709551615")), Some(u64::MAX));
}

#[test]
fn oversized_value_is_unavailable() {
    assert_eq!(parse_content_length(Some("18446744073709551616")), None);
}
