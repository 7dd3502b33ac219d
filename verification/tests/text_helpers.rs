use transfer::text::{bytes_eq, decimal_bytes, literal_bytes, lowercase};

#[test]
fn decimal_of_zero_is_one_digit() {
    assert_eq!(decimal_bytes(0), b"0".to_vec());
}

#[test]
fn decimal_of_numbers() {
    assert_eq!(decimal_bytes(7), b"7".to_vec());
    assert_eq!(decimal_bytes(10), b"10".to_vec());
    assert_eq!(decimal_bytes(8080), b"8080".to_vec());
    assert_eq!(decimal_bytes(u64::MAX), u64::MAX.to_string().into_bytes());
}

#[test]
fn lowercase_changes_only_ascii_capitals() {
    assert_eq!(lowercase(b"Content-Length"), b"content-length".to_vec());
    assert_eq!(lowercase(b"A-Z_[@]\xc3\x89"), b"a-z_[@]\xc3\x89".to_vec());
}

#[test]
fn bytes_compare() {
    assert!(bytes_eq(b"abc", b"abc"));
    assert!(!bytes_eq(b"abc", b"abd"));
    assert!(!bytes_eq(b"abc", b"ab"));
    assert!(bytes_eq(b"", b""));
}

#[test]
fn literal_bytes_are_the_text() {
    assert_eq!(literal_bytes("HTTP/1.1 "), b"HTTP/1.1 ".to_vec());
}
