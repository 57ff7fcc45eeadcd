use acumen::group::{group_passwd, parse_record};
use acumen::record::{parse_gid, scan};
use acumen::{GroupEntries, GroupErrorKind, GroupParseError};

fn reader(text: &[u8]) -> GroupEntries {
    GroupEntries::new(Ok(text.to_vec())).unwrap()
}

#[test]
fn well_formed_line_gives_name_gid_and_members() {
    let mut entries = reader(b"audio:x:29:alice,bob,carol\n");
    let entry = entries.next_entry().unwrap();
    assert_eq!(entry.group_name(), "audio");
    assert_eq!(entry.gid().as_raw(), 29);
    assert_eq!(entry.userlist(), vec!["alice", "bob", "carol"]);
    assert_eq!(entry.userlist_raw(), "alice,bob,carol");
}

#[test]
fn placeholder_password_is_absent() {
    let mut entries = reader(b"wheel:x:10:alice");
    let entry = entries.next_entry().unwrap();
    assert_eq!(entry.group_password(), None);
    assert_eq!(entry.group_name(), "wheel");
    assert_eq!(entry.gid().as_raw(), 10);
    assert_eq!(entry.userlist(), vec!["alice"]);
}

#[test]
fn other_password_is_reported_verbatim() {
    let mut entries = reader(b"wheel:*:10:alice");
    let entry = entries.next_entry().unwrap();
    assert_eq!(entry.group_password(), Some("*"));
}

#[test]
fn password_that_only_starts_with_placeholder_is_kept() {
    let mut entries = reader(b"wheel:xx:10:\nwheel::11:\n");
    assert_eq!(entries.next_entry().unwrap().group_password(), Some("xx"));
    assert_eq!(entries.next_entry().unwrap().group_password(), Some(""));
}

#[test]
fn gid_zero() {
    let mut entries = reader(b"g:x:0:");
    assert_eq!(entries.next_entry().unwrap().gid().as_raw(), 0);
}

#[test]
fn gid_at_the_32_bit_maximum() {
    let mut entries = reader(b"g:x:4294967295:");
    assert_eq!(entries.next_entry().unwrap().gid().as_raw(), u32::MAX);
}

#[test]
fn gid_above_the_32_bit_maximum_is_rejected() {
    let mut entries = reader(b"g:x:4294967296:");
    assert_eq!(entries.next_entry().err().map(|e| e.kind()), Some(GroupErrorKind::InvalidDigits));
}

#[test]
fn gid_with_leading_zeros() {
    let mut entries = reader(b"g:x:000000000000000000012:");
    assert_eq!(entries.next_entry().unwrap().gid().as_raw(), 12);
}

#[test]
fn gid_that_is_no_number_is_rejected() {
    let mut entries = reader(b"g:x:abc:");
    assert_eq!(entries.next_entry().err().map(|e| e.kind()), Some(GroupErrorKind::InvalidDigits));
}

#[test]
fn empty_or_signed_gid_is_rejected() {
    assert_eq!(reader(b"g:x::\n").next_entry().err().map(|e| e.kind()), Some(GroupErrorKind::InvalidDigits));
    assert_eq!(reader(b"g:x:+5:\n").next_entry().err().map(|e| e.kind()), Some(GroupErrorKind::InvalidDigits));
    assert_eq!(reader(b"g:x:-5:\n").next_entry().err().map(|e| e.kind()), Some(GroupErrorKind::InvalidDigits));
    assert_eq!(reader(b"g:x: 5:\n").next_entry().err().map(|e| e.kind()), Some(GroupErrorKind::InvalidDigits));
}

#[test]
fn record_without_three_colons_is_rejected() {
    assert_eq!(reader(b"g:x:5").next_entry().err().map(|e| e.kind()), Some(GroupErrorKind::InvalidDigits));
    assert_eq!(reader(b"g\n").next_entry().err().map(|e| e.kind()), Some(GroupErrorKind::InvalidDigits));
}

#[test]
fn end_of_input_is_repeated() {
    let mut entries = reader(b"a:x:1:\n");
    assert!(entries.next_entry().is_ok());
    for _ in 0..5 {
        assert_eq!(entries.next_entry().err().map(|e| e.kind()), Some(GroupErrorKind::Eof));
    }
    let mut empty = reader(b"");
    assert_eq!(empty.next_entry().err().map(|e| e.kind()), Some(GroupErrorKind::Eof));
    assert_eq!(empty.next_entry().err().map(|e| e.kind()), Some(GroupErrorKind::Eof));
}

#[test]
fn two_records_then_end_of_input() {
    let mut entries = reader(b"a:x:1:\nb:x:2:u1\n");
    let a = entries.next_entry().unwrap();
    assert_eq!(a.group_name(), "a");
    assert_eq!(a.gid().as_raw(), 1);
    assert_eq!(a.userlist(), Vec::<&str>::new());
    let b = entries.next_entry().unwrap();
    assert_eq!(b.group_name(), "b");
    assert_eq!(b.gid().as_raw(), 2);
    assert_eq!(b.userlist(), vec!["u1"]);
    assert_eq!(entries.next_entry().err().map(|e| e.kind()), Some(GroupErrorKind::Eof));
}

#[test]
fn member_list_can_be_split_again() {
    let mut entries = reader(b"g:x:7:u1,,u3,\n");
    let entry = entries.next_entry().unwrap();
    let first = entry.userlist();
    let second = entry.userlist();
    assert_eq!(first, vec!["u1", "", "u3", ""]);
    assert_eq!(first, second);
}

#[test]
fn invalid_utf8_is_rejected_and_the_cursor_stays() {
    let mut entries = reader(b"g\xff:x:7:u1\nh:x:8:\n");
    assert_eq!(entries.next_entry().err().map(|e| e.kind()), Some(GroupErrorKind::InvalidUtf8));
    assert_eq!(entries.next_entry().err().map(|e| e.kind()), Some(GroupErrorKind::InvalidUtf8));
    let mut entries = reader(b"g:\xc3:7:u1\n");
    assert_eq!(entries.next_entry().err().map(|e| e.kind()), Some(GroupErrorKind::InvalidUtf8));
    let mut entries = reader(b"g:x:7:u\xc3\n");
    assert_eq!(entries.next_entry().err().map(|e| e.kind()), Some(GroupErrorKind::InvalidUtf8));
}

#[test]
fn malformed_gid_is_reported_before_malformed_text() {
    let mut entries = reader(b"g\xff:x:\xff:u1\n");
    assert_eq!(entries.next_entry().err().map(|e| e.kind()), Some(GroupErrorKind::InvalidDigits));
}

#[test]
fn text_beyond_ascii_is_kept() {
    let mut entries = reader("gr\u{fc}n:pw:3:\u{e9}mile,zo\u{eb}\n".as_bytes());
    let entry = entries.next_entry().unwrap();
    assert_eq!(entry.group_name(), "gr\u{fc}n");
    assert_eq!(entry.group_password(), Some("pw"));
    assert_eq!(entry.userlist(), vec!["\u{e9}mile", "zo\u{eb}"]);
}

#[test]
fn failed_read_is_an_io_error_that_carries_the_error_of_the_read() {
    let failed = Err(std::io::Error::new(std::io::ErrorKind::NotFound, "no such group file"));
    match GroupEntries::new(failed) {
        Err(GroupParseError::IoError(error)) => {
            assert_eq!(error.kind(), std::io::ErrorKind::NotFound);
            assert_eq!(error.to_string(), "no such group file");
        }
        other => panic!("{:?}", other.map(|_| ())),
    }
}

#[test]
fn password_field() {
    assert_eq!(group_passwd(b"x").unwrap(), None);
    assert_eq!(group_passwd(b"").unwrap(), Some(""));
    assert_eq!(group_passwd(b"secret").unwrap(), Some("secret"));
    assert_eq!(group_passwd(b"xx").unwrap(), Some("xx"));
    match group_passwd(b"ab\xff") {
        Err(GroupParseError::InvalidUtf8(error)) => assert_eq!(error.valid_up_to(), 2),
        other => panic!("{:?}", other),
    }
}

#[test]
fn gid_field() {
    assert_eq!(parse_gid(b"0"), Some(0));
    assert_eq!(parse_gid(b"1000"), Some(1000));
    assert_eq!(parse_gid(b"4294967295"), Some(4294967295));
    assert_eq!(parse_gid(b"4294967296"), None);
    assert_eq!(parse_gid(b"99999999999999999999999"), None);
    assert_eq!(parse_gid(b""), None);
    assert_eq!(parse_gid(b"12a"), None);
}

#[test]
fn field_ends() {
    let ends = scan(b"ab:c:12:u,v\nrest");
    assert_eq!((ends.name, ends.password, ends.gid, ends.userlist), (2, 4, 7, 11));
    let ends = scan(b"ab:c");
    assert_eq!((ends.name, ends.password, ends.gid, ends.userlist), (2, 4, 4, 4));
    let ends = scan(b"a\nb:c:1:");
    assert_eq!((ends.name, ends.password, ends.gid, ends.userlist), (3, 5, 7, 8));
}

#[test]
fn record_and_its_length() {
    let (entry, taken) = parse_record(b"a:x:1:m\nb:x:2:\n").unwrap();
    assert_eq!(entry.group_name(), "a");
    assert_eq!(taken, 8);
    let (entry, taken) = parse_record(b"a:x:1:m").unwrap();
    assert_eq!(entry.userlist_raw(), "m");
    assert_eq!(taken, 7);
}

#[test]
fn errors_in_words() {
    assert_eq!(GroupParseError::Eof.message(), "end-of-file");
    assert_eq!(GroupParseError::InvalidDigits.message(), "invalid digit found in string");
    let malformed = std::str::from_utf8(b"a\xff").unwrap_err();
    assert_eq!(GroupParseError::InvalidUtf8(malformed).message(), malformed.to_string());
    let failed = std::io::Error::new(std::io::ErrorKind::Other, "disk on fire");
    assert_eq!(GroupParseError::IoError(failed).message(), "disk on fire");
}

#[test]
fn members_agree_with_the_standard_library() {
    for list in ["a", "a,b", ",", "a,,b", ",a", "a,", "\u{e9},\u{fc}"] {
        let line = format!("g:x:1:{}\n", list);
        let mut entries = reader(line.as_bytes());
        let entry = entries.next_entry().unwrap();
        let expected: Vec<&str> = list.split(',').collect();
        assert_eq!(entry.userlist(), expected);
    }
}

#[test]
fn outside_errors_become_errors_of_the_library() {
    let failed = std::io::Error::from(std::io::ErrorKind::UnexpectedEof);
    match GroupParseError::from(failed) {
        GroupParseError::IoError(error) => {
            assert_eq!(error.kind(), std::io::ErrorKind::UnexpectedEof)
        }
        other => panic!("{:?}", other),
    }
    let malformed = std::str::from_utf8(b"\xff").unwrap_err();
    match GroupParseError::from(malformed) {
        GroupParseError::InvalidUtf8(error) => assert_eq!(error, malformed),
        other => panic!("{:?}", other),
    }
}

#[test]
fn kinds_of_failure() {
    assert_eq!(GroupParseError::Eof.kind(), GroupErrorKind::Eof);
    assert_eq!(GroupParseError::InvalidDigits.kind(), GroupErrorKind::InvalidDigits);
    let malformed = std::str::from_utf8(b"\xff").unwrap_err();
    assert_eq!(GroupParseError::InvalidUtf8(malformed).kind(), GroupErrorKind::InvalidUtf8);
    let failed = std::io::Error::from(std::io::ErrorKind::NotFound);
    assert_eq!(GroupParseError::IoError(failed).kind(), GroupErrorKind::IoError);
}

#[test]
fn invalid_text_carries_the_error_of_the_decoding() {
    let mut entries = reader(b"ab\xffc:x:7:u1\n");
    match entries.next_entry() {
        Err(GroupParseError::InvalidUtf8(error)) => assert_eq!(error.valid_up_to(), 2),
        other => panic!("{:?}", other.map(|_| ())),
    }
}
