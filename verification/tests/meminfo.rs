use acumen::meminfo::{read_entry, unit_removed};
use acumen::Meminfo;

#[test]
fn mem_total_line() {
    let info = Meminfo::new(Ok("MemTotal:     16384 kB".to_string()));
    assert_eq!(info.get("MemTotal"), Some(16384));
    assert_eq!(info.mem_total(), Some(16384));
}

#[test]
fn several_lines() {
    let text = "MemTotal:       32768 kB\nMemFree:         1024 kB\nHugePages_Total:       0\n";
    let info = Meminfo::new(Ok(text.to_string()));
    assert_eq!(info.get("MemTotal"), Some(32768));
    assert_eq!(info.get("MemFree"), Some(1024));
    assert_eq!(info.get("HugePages_Total"), Some(0));
    assert_eq!(info.get("SwapTotal"), None);
}

#[test]
fn lines_that_do_not_parse_are_skipped() {
    let text = "Good: 1 kB\nBad: many kB\nNoColon 5 kB\n\nNegative: -5 kB\nOther: 7 MB\nLast: 9\n";
    let info = Meminfo::new(Ok(text.to_string()));
    assert_eq!(info.get("Good"), Some(1));
    assert_eq!(info.get("Bad"), None);
    assert_eq!(info.get("NoColon 5 kB"), None);
    assert_eq!(info.get("Negative"), None);
    assert_eq!(info.get("Other"), None);
    assert_eq!(info.get("Last"), Some(9));
}

#[test]
fn amount_may_carry_a_plus_sign() {
    let info = Meminfo::new(Ok("A: +12 kB\nB: + 12 kB\nC: ++1\nD: +\n".to_string()));
    assert_eq!(info.get("A"), Some(12));
    assert_eq!(info.get("B"), None);
    assert_eq!(info.get("C"), None);
    assert_eq!(info.get("D"), None);
}

#[test]
fn amount_must_fit_the_machine_word() {
    let most = usize::MAX;
    let text = format!("Most: {} kB\nMore: {}0 kB\n", most, most);
    let info = Meminfo::new(Ok(text));
    assert_eq!(info.get("Most"), Some(most));
    assert_eq!(info.get("More"), None);
}

#[test]
fn meminfo_later_line_replaces_earlier_one() {
    let info = Meminfo::new(Ok("A: 1 kB\nB: 2 kB\nA: 3 kB\n".to_string()));
    assert_eq!(info.get("A"), Some(3));
    assert_eq!(info.get("B"), Some(2));
}

#[test]
fn carriage_returns_before_line_feeds_are_dropped() {
    let info = Meminfo::new(Ok("A: 1 kB\r\nB: 2 kB\r\n".to_string()));
    assert_eq!(info.get("A"), Some(1));
    assert_eq!(info.get("B"), Some(2));
}

#[test]
fn failed_read_gives_an_empty_table() {
    let info = Meminfo::new(Err(std::io::Error::from(std::io::ErrorKind::PermissionDenied)));
    assert_eq!(info.mem_total(), None);
}

#[test]
fn meminfo_try_new_hands_the_failure_back() {
    let failed = Err(std::io::Error::from(std::io::ErrorKind::PermissionDenied));
    let error = Meminfo::try_new(failed).err().unwrap();
    assert_eq!(error.kind(), std::io::ErrorKind::PermissionDenied);
    let info = Meminfo::try_new(Ok("MemTotal: 5 kB\n".to_string())).unwrap();
    assert_eq!(info.mem_total(), Some(5));
}

#[test]
fn unit_is_removed_as_often_as_it_stands() {
    let text: Vec<char> = " 5 kBkB".chars().collect();
    assert_eq!(unit_removed(&text).iter().collect::<String>(), " 5 ");
    let text: Vec<char> = "5 kB ".chars().collect();
    assert_eq!(unit_removed(&text).iter().collect::<String>(), "5 kB ");
    let text: Vec<char> = "kB".chars().collect();
    assert_eq!(unit_removed(&text).iter().collect::<String>(), "");
}

#[test]
fn entries_agree_with_the_standard_library() {
    let samples =
        ["MemTotal:     16384 kB", "A:1", " B : 2kB", "C: 3 kBkB", "D: x", "E", ":4", "F: 5 kb"];
    for line in samples {
        let expected = line.split_once(':').and_then(|(name, content)| {
            content
                .trim_end_matches("kB")
                .trim()
                .parse::<usize>()
                .ok()
                .map(|value| (name.trim().to_string(), value))
        });
        let chars: Vec<char> = line.chars().collect();
        assert_eq!(read_entry(&chars), expected);
    }
}

#[test]
fn every_written_row_is_found_again() {
    let rows =
        [("MemTotal", 5, 16384usize), ("MemFree", 0, 0), ("Swap Cached", 1, 7), ("x", 12, usize::MAX)];
    for closed in [true, false] {
        let mut text = String::new();
        for (at, (name, padding, amount)) in rows.iter().enumerate() {
            text.push_str(&format!("{}:{}{} kB", name, " ".repeat(*padding), amount));
            if closed || at + 1 < rows.len() {
                text.push('\n');
            }
        }
        let info = Meminfo::new(Ok(text));
        for (name, _, amount) in rows {
            assert_eq!(info.get(name), Some(amount));
        }
        assert_eq!(info.get("MemAvailable"), None);
        assert_eq!(info.get(""), None);
    }
}
