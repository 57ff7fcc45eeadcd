use acumen::os_release::{read_entry, split_words};
use acumen::OsRelease;

fn failed() -> Result<String, std::io::Error> {
    Err(std::io::Error::from(std::io::ErrorKind::NotFound))
}

#[test]
fn id_like_is_split_into_words() {
    let release = OsRelease::new(Ok("ID_LIKE=\"debian ubuntu\"\n".to_string()));
    assert_eq!(release.id_like(), Some(vec!["debian", "ubuntu"]));
}

#[test]
fn missing_key_is_absent() {
    let release = OsRelease::new(Ok("NAME=Fedora\n".to_string()));
    assert_eq!(release.id_like(), None);
    assert_eq!(release.get("ID"), None);
    assert_eq!(release.version(), None);
}

#[test]
fn named_accessors() {
    let text = "NAME=\"Fedora Linux\"\nVERSION=\"39 (Workstation Edition)\"\nID=fedora\n\
                VARIANT=\"Workstation Edition\"\nVARIANT_ID=workstation\n\
                PRETTY_NAME=\"Fedora Linux 39\"\nCPE_NAME=\"cpe:/o:fedoraproject:fedora:39\"\n";
    let release = OsRelease::new(Ok(text.to_string()));
    assert_eq!(release.name(), Some("Fedora Linux"));
    assert_eq!(release.version(), Some("39 (Workstation Edition)"));
    assert_eq!(release.id(), Some("fedora"));
    assert_eq!(release.variant(), Some("Workstation Edition"));
    assert_eq!(release.variant_id(), Some("workstation"));
    assert_eq!(release.pretty_name(), Some("Fedora Linux 39"));
    assert_eq!(release.cpe_name(), Some("cpe:/o:fedoraproject:fedora:39"));
    assert_eq!(release.get("NAME"), Some("Fedora Linux"));
}

#[test]
fn comments_and_empty_lines_are_ignored() {
    let release = OsRelease::new(Ok("# ID=hidden\n\nID=shown\n#NAME=x\nplain line\n".to_string()));
    assert_eq!(release.id(), Some("shown"));
    assert_eq!(release.name(), None);
    assert_eq!(release.get("# ID"), None);
}

#[test]
fn os_release_later_line_replaces_earlier_one() {
    let release = OsRelease::new(Ok("ID=one\nNAME=n\nID=two\n".to_string()));
    assert_eq!(release.id(), Some("two"));
    assert_eq!(release.name(), Some("n"));
}

#[test]
fn value_keeps_inner_quotes_and_white_space() {
    let release = OsRelease::new(Ok(" NAME =\"\"a \"b\" \"\nID= x \nVERSION=a=b\r\n".to_string()));
    assert_eq!(release.name(), Some("a \"b\" "));
    assert_eq!(release.id(), Some(" x "));
    assert_eq!(release.version(), Some("a=b"));
}

#[test]
fn last_line_needs_no_line_feed() {
    let release = OsRelease::new(Ok("ID=arch".to_string()));
    assert_eq!(release.id(), Some("arch"));
}

#[test]
fn failed_read_gives_an_empty_description() {
    let release = OsRelease::new(failed());
    assert_eq!(release.id(), None);
    assert_eq!(release.id_like(), None);
}

#[test]
fn os_release_try_new_hands_the_failure_back() {
    let error = OsRelease::try_new(failed()).err().unwrap();
    assert_eq!(error.kind(), std::io::ErrorKind::NotFound);
    let release = OsRelease::try_new(Ok("ID=nixos\n".to_string())).unwrap();
    assert_eq!(release.id(), Some("nixos"));
}

#[test]
fn words_are_runs_without_white_space() {
    assert_eq!(split_words("  rhel\tcentos \u{a0} fedora\n"), vec!["rhel", "centos", "fedora"]);
    assert_eq!(split_words(""), Vec::<&str>::new());
    assert_eq!(split_words(" \t "), Vec::<&str>::new());
    assert_eq!(split_words("one"), vec!["one"]);
    assert_eq!(split_words("\u{e9}t\u{e9} \u{3000}hiver"), vec!["\u{e9}t\u{e9}", "hiver"]);
}

#[test]
fn words_agree_with_the_standard_library() {
    for text in ["a b", " a  b ", "\u{2003}x\u{2028}y", "debian ubuntu", "", "\r\n"] {
        let expected: Vec<&str> = text.split_whitespace().collect();
        assert_eq!(split_words(text), expected);
    }
}

#[test]
fn one_line() {
    let line: Vec<char> = " KEY = \"v\"".chars().collect();
    assert_eq!(read_entry(&line), Some((String::from("KEY"), String::from(" \"v"))));
    let line: Vec<char> = "KEY=\"v\"".chars().collect();
    assert_eq!(read_entry(&line), Some((String::from("KEY"), String::from("v"))));
    let line: Vec<char> = "#KEY=v".chars().collect();
    assert_eq!(read_entry(&line), None);
    let line: Vec<char> = "KEY".chars().collect();
    assert_eq!(read_entry(&line), None);
    assert_eq!(read_entry(&[]), None);
}
