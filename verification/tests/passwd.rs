use acumen::{getpwuid, Passwd};
use rustix::process::Uid;

const USERS: &[u8] = b"root:x:0:0:root:/root:/bin/bash\n\
                       daemon:x:1:1:daemon:/usr/sbin:/usr/sbin/nologin\n\
                       alice:x:1000:1000:Alice,,,:/home/alice:/bin/zsh\n";

#[test]
fn line_of_seven_fields() {
    let user = Passwd::from_buf("alice:x:1000:100:Alice,,,:/home/alice:/bin/zsh").unwrap();
    assert_eq!(user.name, "alice");
    assert_eq!(user.passwd, "x");
    assert_eq!(user.uid.as_raw(), 1000);
    assert_eq!(user.gid.as_raw(), 100);
    assert_eq!(user.gecos, "Alice,,,");
    assert_eq!(user.dir, "/home/alice");
    assert_eq!(user.shell, "/bin/zsh");
}

#[test]
fn shell_is_all_that_follows_the_sixth_colon() {
    let user = Passwd::from_buf("u:x:1:2:g:/h:/bin/sh:extra").unwrap();
    assert_eq!(user.shell, "/bin/sh:extra");
}

#[test]
fn fewer_fields_give_no_user() {
    assert!(Passwd::from_buf("").is_none());
    assert!(Passwd::from_buf("u:x:1:2:g:/h").is_none());
    assert!(Passwd::from_buf("\n").is_none());
}

#[test]
fn ids_must_be_numbers_of_32_bits() {
    assert!(Passwd::from_buf("u:x:one:2:g:/h:/s").is_none());
    assert!(Passwd::from_buf("u:x:1:two:g:/h:/s").is_none());
    assert!(Passwd::from_buf("u:x:1::g:/h:/s").is_none());
    assert!(Passwd::from_buf("u:x:4294967296:2:g:/h:/s").is_none());
    assert!(Passwd::from_buf("u:x: 1:2:g:/h:/s").is_none());
    let user = Passwd::from_buf("u:x:4294967295:+7:g:/h:/s").unwrap();
    assert_eq!(user.uid.as_raw(), u32::MAX);
    assert_eq!(user.gid.as_raw(), 7);
}

#[test]
fn lookup_finds_the_first_user_with_the_id() {
    let user = getpwuid(Ok(USERS.to_vec()), Uid::from_raw(1000)).unwrap();
    assert_eq!(user.name, "alice");
    assert_eq!(user.shell, "/bin/zsh");
    let user = getpwuid(Ok(USERS.to_vec()), Uid::from_raw(0)).unwrap();
    assert_eq!(user.name, "root");
    let twice = b"a:x:5:5::/:/s\nb:x:5:5::/:/s\n".to_vec();
    assert_eq!(getpwuid(Ok(twice), Uid::from_raw(5)).unwrap().name, "a");
}

#[test]
fn lookup_without_a_match_gives_no_user() {
    assert!(getpwuid(Ok(USERS.to_vec()), Uid::from_raw(42)).is_none());
    assert!(getpwuid(Ok(Vec::new()), Uid::from_raw(0)).is_none());
}

#[test]
fn lookup_of_a_last_line_without_line_feed() {
    let user = getpwuid(Ok(b"a:x:1:1::/:/s\nb:x:2:2::/:/t".to_vec()), Uid::from_raw(2)).unwrap();
    assert_eq!(user.name, "b");
    assert_eq!(user.shell, "/t");
}

#[test]
fn lookup_ends_at_the_first_line_that_writes_no_user() {
    let data = b"a:x:1:1::/:/s\nbroken\nb:x:2:2::/:/t\n".to_vec();
    assert!(getpwuid(Ok(data.clone()), Uid::from_raw(2)).is_none());
    assert_eq!(getpwuid(Ok(data), Uid::from_raw(1)).unwrap().name, "a");
    let data = b"a:x:1:1::/:/s\n\xff\xfe:x:3:3::/:/s\nb:x:2:2::/:/t\n".to_vec();
    assert!(getpwuid(Ok(data.clone()), Uid::from_raw(2)).is_none());
    assert_eq!(getpwuid(Ok(data), Uid::from_raw(1)).unwrap().name, "a");
}

#[test]
fn lookup_after_a_failed_read_gives_no_user() {
    let failed = Err(std::io::Error::from(std::io::ErrorKind::NotFound));
    assert!(getpwuid(failed, Uid::from_raw(0)).is_none());
}

#[test]
fn line_terminator_belongs_to_no_field() {
    let file = b"alice:x:1000:100:Alice A:/home/alice:/bin/zsh\n".to_vec();
    let user = getpwuid(Ok(file), Uid::from_raw(1000)).unwrap();
    assert_eq!(user.name, "alice");
    assert_eq!(user.uid.as_raw(), 1000);
    assert_eq!(user.gid.as_raw(), 100);
    assert_eq!(user.gecos, "Alice A");
    assert_eq!(user.dir, "/home/alice");
    assert_eq!(user.shell, "/bin/zsh");
    let user = Passwd::from_line("alice:x:1000:100:Alice A:/home/alice:/bin/zsh\n").unwrap();
    assert_eq!(user.shell, "/bin/zsh");
}

#[test]
fn line_may_end_in_carriage_return_and_line_feed_or_in_nothing() {
    let user = Passwd::from_line("u:x:1:2:g:/h:/bin/sh\r\n").unwrap();
    assert_eq!(user.shell, "/bin/sh");
    let user = Passwd::from_line("u:x:1:2:g:/h:/bin/sh").unwrap();
    assert_eq!(user.shell, "/bin/sh");
    let user = Passwd::from_line("u:x:1:2:g:/h:/bin/sh\r").unwrap();
    assert_eq!(user.shell, "/bin/sh\r");
    assert!(Passwd::from_line("").is_none());
    assert!(Passwd::from_line("\n").is_none());
    assert!(Passwd::from_line("\r\n").is_none());
    let file = b"a:x:1:1::/:/s\r\nb:x:2:2::/:/t\r\n".to_vec();
    assert_eq!(getpwuid(Ok(file), Uid::from_raw(2)).unwrap().shell, "/t");
}

#[test]
fn characters_of_a_line() {
    let line: Vec<char> = "u:x:1:2:g:/h:/bin/sh".chars().collect();
    let user = Passwd::from_chars(&line).unwrap();
    assert_eq!(user.name, "u");
    assert_eq!(user.shell, "/bin/sh");
    assert!(Passwd::from_chars(&[]).is_none());
}
