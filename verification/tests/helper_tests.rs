use myi3stat::helper::collect_captures;
use myi3stat::helper::commaseparated_to_vec;
use myi3stat::helper::extract_from_str;
use myi3stat::helper::get_procfs_file_lines;
use myi3stat::helper::read_procfs_file;
use myi3stat::helper::Counters;
use regex::Regex;

#[test]
fn test_extract_1() {
    let re = Regex::new(r"(\d+) (\d+)").unwrap();
    let s = String::from("123 456");

    let result: Vec<i32> = extract_from_str(&s, &re, 0);

    assert_eq!(result[0], 123);
    assert_eq!(result[1], 456);
    assert_eq!(result.len(), 2);
}

#[test]
fn extract_without_match_is_empty() {
    let re = Regex::new(r"(\d+) (\d+)").unwrap();
    let result: Vec<i32> = extract_from_str(&String::from("no numbers"), &re, 7);
    assert_eq!(result, Vec::<i32>::new());
}

#[test]
fn extract_uses_the_default() {
    // The second group takes no part; the third is too large for an i32.
    let re = Regex::new(r"^(\d+)(x)? (\d+)$").unwrap();
    let result: Vec<i32> = extract_from_str(&String::from("12 99999999999"), &re, -1);
    assert_eq!(result, vec![12, -1, -1]);
}

#[test]
fn extract_takes_the_leftmost_match() {
    let re = Regex::new(r"(\d+)").unwrap();
    let result: Vec<u64> = extract_from_str(&String::from("a 17 b 23"), &re, 0);
    assert_eq!(result, vec![17]);
}

#[test]
fn extract_strings() {
    let re = Regex::new(r"^\s*([a-z0-9]+):(.*)").unwrap();
    let result: Vec<String> = extract_from_str(&String::from("  eth0: 1 2"), &re, String::new());
    assert_eq!(result, vec!["eth0", " 1 2"]);
}

#[test]
fn extract_without_groups_is_empty() {
    let re = Regex::new(r"\d+").unwrap();
    let result: Vec<u64> = extract_from_str(&String::from("42"), &re, 0);
    assert_eq!(result, Vec::<u64>::new());
}

#[test]
fn collect_captures_skips_the_whole_match() {
    let groups = Some(vec![
        Some(String::from("1 x 3")),
        Some(String::from("1")),
        Some(String::from("x")),
        None,
        Some(String::from("3")),
    ]);
    let result: Vec<u64> = collect_captures(groups, 9);
    assert_eq!(result, vec![1, 9, 9, 3]);
    let result: Vec<u64> = collect_captures(None, 9);
    assert_eq!(result, Vec::<u64>::new());
    let result: Vec<u64> = collect_captures(Some(Vec::new()), 9);
    assert_eq!(result, Vec::<u64>::new());
}

#[test]
fn commaseparated_to_vec_splits() {
    assert_eq!(commaseparated_to_vec(String::from("eth0,lo")), vec!["eth0", "lo"]);
    assert_eq!(commaseparated_to_vec(String::from("eth0")), vec!["eth0"]);
    assert_eq!(commaseparated_to_vec(String::new()), vec![""]);
    assert_eq!(commaseparated_to_vec(String::from("a,,b,")), vec!["a", "", "b", ""]);
}

#[test]
fn counters_hold_what_was_put() {
    let mut c = Counters::new();
    assert_eq!(read_procfs_file(&c, String::from("/stat")), None);
    c.put(String::from("/stat"), String::from("cpu 1 2 3\n"));
    c.put(String::from("/loadavg"), String::from("0.1 0.2 0.3"));
    assert_eq!(read_procfs_file(&c, String::from("/stat")), Some(String::from("cpu 1 2 3\n")));
    assert_eq!(read_procfs_file(&c, String::from("/loadavg")), Some(String::from("0.1 0.2 0.3")));
    assert_eq!(read_procfs_file(&c, String::from("/net/dev")), None);
    c.put(String::from("/stat"), String::from("new"));
    assert_eq!(read_procfs_file(&c, String::from("/stat")), Some(String::from("new")));
}

#[test]
fn procfs_file_lines() {
    let mut c = Counters::new();
    c.put(String::from("/stat"), String::from("cpu 1 2 3\ncpu0 1 2 3\n"));
    c.put(String::from("/empty"), String::new());
    assert_eq!(
        get_procfs_file_lines(&c, String::from("/stat")),
        Some(vec![String::from("cpu 1 2 3"), String::from("cpu0 1 2 3")])
    );
    assert_eq!(get_procfs_file_lines(&c, String::from("/empty")), Some(Vec::new()));
    assert_eq!(get_procfs_file_lines(&c, String::from("/missing")), None);
}
