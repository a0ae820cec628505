use elm_core::digest::{digest_matches, equal_ignoring_case, Checksum};

const ABC: &str = "ba7816bf8f01cfea414140de5dae2223b00361a396177a9cb410ff61f20015ad";
const EMPTY: &str = "e3b0c44298fc1c149afbf4c8996fb92427ae41e4649b934ca495991b7852b855";

#[test]
fn the_checksum_of_abc() {
    let mut sum = Checksum::new();
    sum.take(b"abc");
    assert_eq!(sum.check(ABC), Ok(()));
}

#[test]
fn the_checksum_of_nothing() {
    assert_eq!(Checksum::new().check(EMPTY), Ok(()));
}

#[test]
fn chunks_count_as_one_file() {
    let mut sum = Checksum::new();
    sum.take(b"a");
    sum.take(b"");
    sum.take(b"bc");
    assert_eq!(sum.check(ABC), Ok(()));
}

#[test]
fn the_order_of_chunks_counts() {
    let mut sum = Checksum::new();
    sum.take(b"bc");
    sum.take(b"a");
    assert!(sum.check(ABC).is_err());
}

#[test]
fn upper_case_is_accepted_in_the_expected_text() {
    let mut sum = Checksum::new();
    sum.take(b"abc");
    assert_eq!(sum.check(&ABC.to_uppercase()), Ok(()));
}

#[test]
fn a_mismatch_returns_the_digest_found() {
    let mut sum = Checksum::new();
    sum.take(b"abc");
    assert_eq!(sum.check(EMPTY), Err(ABC.as_bytes().to_vec()));
}

#[test]
fn a_shortened_text_does_not_match() {
    let mut sum = Checksum::new();
    sum.take(b"abc");
    assert!(sum.check(&ABC[..63]).is_err());
    let mut sum = Checksum::new();
    sum.take(b"abc");
    assert!(sum.check("").is_err());
}

#[test]
fn a_digest_is_written_in_lower_case_hexadecimal() {
    assert!(digest_matches(&[0x00, 0x0f, 0xa0, 0xff, 0x9a], "000fa0ff9a"));
    assert!(digest_matches(&[0x00, 0x0f, 0xa0, 0xff, 0x9a], "000FA0FF9A"));
    assert!(digest_matches(&[0x00, 0x0f, 0xa0, 0xff, 0x9a], "000Fa0fF9a"));
    assert!(!digest_matches(&[0x00, 0x0f, 0xa0, 0xff, 0x9a], "000fa0ff9b"));
    assert!(!digest_matches(&[0x00, 0x0f, 0xa0, 0xff, 0x9a], "000fa0ff9"));
    assert!(!digest_matches(&[0x00, 0x0f], "0f00"));
    assert!(digest_matches(&[], ""));
    assert!(!digest_matches(&[0x30], "0"));
    assert!(digest_matches(&[0x30], "30"));
}

#[test]
fn only_letters_of_ascii_fold() {
    assert!(equal_ignoring_case(b"AbC", b"aBc"));
    assert!(equal_ignoring_case(b"", b""));
    assert!(!equal_ignoring_case(b"a", b"ab"));
    assert!(!equal_ignoring_case(b"@", b"`"));
    assert!(!equal_ignoring_case(b"[", b"{"));
    assert!(equal_ignoring_case(b"Z", b"z"));
    assert!(equal_ignoring_case(b"A", b"a"));
    assert!(!equal_ignoring_case("\u{212a}".as_bytes(), b"k"));
}
