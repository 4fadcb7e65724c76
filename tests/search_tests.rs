use minigrep::{line_contains, search, search_case_insensitive, Config, MissingArgument};

#[test]
fn case_sensitive() {
    let text = "ember";
    let contents = "\
Gym memberships
are getting
way too expensive.
Ember.";

    assert_eq!(vec!["Gym memberships"], search(text, contents));
}

#[test]
fn case_insensitive() {
    let query = "TOo";
    let contents = "\
Gym memberships
Are getting
Way too expensive.";

    assert_eq!(
        vec!["Way too expensive."],
        search_case_insensitive(query, contents)
    );
}

#[test]
fn empty_query_returns_every_line() {
    assert_eq!(vec!["a", "b", "c"], search("", "a\nb\nc"));
}

#[test]
fn empty_query_returns_every_line_ignoring_case() {
    assert_eq!(vec!["A", "", "c"], search_case_insensitive("", "A\n\nc"));
}

#[test]
fn empty_contents_have_no_lines() {
    assert!(search("", "").is_empty());
    assert!(search_case_insensitive("", "").is_empty());
}

#[test]
fn trailing_newline_starts_no_line() {
    assert_eq!(vec!["a", ""], search("", "a\n\n"));
}

#[test]
fn carriage_return_before_newline_is_dropped() {
    assert_eq!(vec!["one", "two"], search("", "one\r\ntwo\r\n"));
    assert_eq!(vec!["two"], search("two", "one\r\ntwo"));
    assert!(search("\r", "one\r\ntwo").is_empty());
}

#[test]
fn lone_carriage_return_at_the_end_stays() {
    assert_eq!(vec!["two\r"], search("o\r", "one\ntwo\r"));
}

#[test]
fn line_with_repeated_match_comes_once() {
    assert_eq!(vec!["abab", "ab"], search("ab", "abab\nba\nab"));
}

#[test]
fn results_keep_order_and_text() {
    let contents = "Rust:\nsafe, fast, productive.\nPick three.\nTrust me.";
    assert_eq!(vec!["Rust:", "Trust me."], search_case_insensitive("rUsT", contents));
    assert_eq!(vec!["Trust me."], search("rust", contents));
}

#[test]
fn no_match_gives_empty_result() {
    assert!(search("zebra", "a\nb\nc").is_empty());
    assert!(search_case_insensitive("ZEBRA", "a\nb\nc").is_empty());
}

#[test]
fn case_insensitive_lowers_the_lines() {
    assert_eq!(vec!["EMBER.", "Ember"], search_case_insensitive("ember", "EMBER.\nnothing\nEmber"));
    assert_eq!(vec!["ÄPFEL und Birnen"], search_case_insensitive("äpfel", "ÄPFEL und Birnen\nKirschen"));
}

#[test]
fn case_sensitive_ignores_other_case() {
    assert!(search("EMBER", "ember\nEmber").is_empty());
}

#[test]
fn query_longer_than_line_does_not_match() {
    assert!(search("abcdef", "abc\nde").is_empty());
}

#[test]
fn line_contains_finds_substrings() {
    assert!(line_contains("way too expensive.", "too"));
    assert!(line_contains("abc", ""));
    assert!(line_contains("", ""));
    assert!(!line_contains("", "a"));
    assert!(!line_contains("aab", "abb"));
    assert!(line_contains("aaab", "aab"));
}

fn args(items: &[&str]) -> Vec<String> {
    items.iter().map(|s| s.to_string()).collect()
}

#[test]
fn build_without_arguments_fails_naming_query() {
    match Config::build(args(&["prog"]), false) {
        Err(e) => {
            assert_eq!(e, MissingArgument::Query);
            assert_eq!(e.message(), "Didn't get a query string");
        }
        Ok(_) => panic!("expected an error"),
    }
    assert!(matches!(Config::build(args(&[]), false), Err(MissingArgument::Query)));
}

#[test]
fn build_without_file_path_fails_naming_file_path() {
    match Config::build(args(&["prog", "needle"]), true) {
        Err(e) => {
            assert_eq!(e, MissingArgument::FilePath);
            assert_eq!(e.message(), "Didn't get a file path");
        }
        Ok(_) => panic!("expected an error"),
    }
}

#[test]
fn build_binds_first_two_arguments_and_ignores_extras() {
    let c = Config::build(args(&["prog", "needle", "poem.txt", "extra", "more"]), false).unwrap();
    assert_eq!(c.text, "needle");
    assert_eq!(c.file_path, "poem.txt");
    assert!(!c.ignore_case);
}

#[test]
fn build_takes_ignore_case_from_its_flag() {
    let c = Config::build(args(&["prog", "q", "f"]), true).unwrap();
    assert!(c.ignore_case);
    let c = Config::build(args(&["prog", "q", "f"]), false).unwrap();
    assert!(!c.ignore_case);
}

#[test]
fn matching_lines_follows_ignore_case() {
    let contents = "Gym memberships\nAre getting\nWay too expensive.";
    let c = Config::build(args(&["prog", "TOo", "f"]), true).unwrap();
    assert_eq!(vec!["Way too expensive."], c.matching_lines(contents));
    let c = Config::build(args(&["prog", "TOo", "f"]), false).unwrap();
    assert!(c.matching_lines(contents).is_empty());
}
