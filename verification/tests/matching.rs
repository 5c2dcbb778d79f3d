use minigrep::matcher::{Matcher, Mode};
use minigrep::scan::{matching_lines, search_text, Match, Scan};
use minigrep::text::{occurs, push_decimal, same_text};

#[test]
fn occurs_finds_a_pattern_anywhere_in_the_text() {
    assert!(occurs("safe", "safe, fast"));
    assert!(occurs("fast", "safe, fast"));
    assert!(occurs("e, f", "safe, fast"));
    assert!(occurs("safe, fast", "safe, fast"));
    assert!(!occurs("safe, fast.", "safe, fast"));
    assert!(!occurs("Safe", "safe, fast"));
    assert!(!occurs("sf", "safe, fast"));
}

#[test]
fn occurs_takes_the_empty_pattern_to_be_everywhere() {
    assert!(occurs("", ""));
    assert!(occurs("", "abc"));
    assert!(!occurs("a", ""));
}

#[test]
fn occurs_finds_a_pattern_that_overlaps_a_false_start() {
    assert!(occurs("aab", "aaab"));
    assert!(occurs("abab", "abaabab"));
    assert!(!occurs("abb", "ababab"));
}

#[test]
fn occurs_compares_whole_characters() {
    assert!(occurs("üß", "grüße"));
    assert!(occurs("🦀", "a🦀b"));
    assert!(!occurs("a", "ä"));
    assert!(!occurs("é", "e\u{301}"));
    assert!(!occurs("\u{a9}", "é"));
    assert!(!occurs("\u{80}", "\u{c0}"));
    assert!(!occurs("日本語", "日本"));
}

#[test]
fn same_text_compares_character_by_character() {
    assert!(same_text("regex", "regex"));
    assert!(!same_text("regex", "Regex"));
    assert!(!same_text("regex", "regexp"));
    assert!(same_text("", ""));
    assert!(same_text("grüße", "grüße"));
    assert!(!same_text("grüße", "grüsse"));
    assert!(!same_text("a", ""));
}

#[test]
fn push_decimal_writes_the_numeral_behind_what_is_there() {
    let mut out = String::from("n=");
    push_decimal(&mut out, 0);
    assert_eq!("n=0", out);
    push_decimal(&mut out, 7);
    push_decimal(&mut out, 10);
    push_decimal(&mut out, 4096);
    assert_eq!("n=07104096", out);
    let mut out = String::new();
    push_decimal(&mut out, usize::MAX);
    assert_eq!(usize::MAX.to_string(), out);
}

#[test]
fn literal_matcher_looks_for_the_exact_text() {
    let matcher = Matcher::literal("duct", false);
    assert!(matcher.matches("safe, fast, productive."));
    assert!(!matcher.matches("Duct tape."));
    assert!(!matcher.matches("duc t"));
    assert_eq!("duct", matcher.pattern());
    assert_eq!(Mode::Literal, matcher.mode());
    assert!(!matcher.case_insensitive());
}

#[test]
fn literal_matcher_can_ignore_case() {
    let matcher = Matcher::literal("rUsT", true);
    assert!(matcher.matches("Rust:"));
    assert!(matcher.matches("Trust me."));
    assert!(matcher.matches("RUSTY"));
    assert!(!matcher.matches("Pick three."));
    assert_eq!("rUsT", matcher.pattern());
    assert!(matcher.case_insensitive());
}

#[test]
fn literal_matcher_takes_a_pattern_that_is_no_expression() {
    let matcher = Matcher::new("[", Mode::Literal, false).unwrap();
    assert!(matcher.matches("a[0]"));
    assert!(!matcher.matches("a(0)"));
}

#[test]
fn swapping_case_changes_nothing_when_case_is_ignored() {
    for pattern in ["error", "ERROR", "eRrOr"] {
        let matcher = Matcher::new(pattern, Mode::Literal, true).unwrap();
        for line in ["an error occurred", "AN ERROR OCCURRED", "An Error Occurred"] {
            assert!(matcher.matches(line));
        }
        for line in ["all is well", "ALL IS WELL"] {
            assert!(!matcher.matches(line));
        }
    }
    for line in ["ERROR42 occurred", "error42 OCCURRED"] {
        assert!(Matcher::new("error\\d+", Mode::Regex, true).unwrap().matches(line));
        assert!(Matcher::new("ERROR\\d+", Mode::Regex, true).unwrap().matches(line));
    }
}

#[test]
fn regex_matcher_finds_a_match_in_part_of_a_line() {
    let matcher = Matcher::new("error\\d+", Mode::Regex, false).unwrap();
    assert!(matcher.matches("error42 occurred"));
    assert!(matcher.matches("an error7"));
    assert!(!matcher.matches("ERROR42 occurred"));
    assert!(!matcher.matches("error occurred"));
    assert_eq!(Mode::Regex, matcher.mode());
}

#[test]
fn regex_matcher_ignores_case_over_the_whole_expression() {
    let matcher = Matcher::new("error\\d+", Mode::Regex, true).unwrap();
    assert!(matcher.matches("ERROR42 occurred"));
    assert!(matcher.matches("Error1"));
    assert!(!matcher.matches("ERROR occurred"));
    let matcher = Matcher::new("a|b", Mode::Regex, true).unwrap();
    assert!(matcher.matches("B"));
    assert!(matcher.matches("A"));
    assert!(!matcher.matches("c"));
}

#[test]
fn regex_matcher_honours_anchors() {
    let matcher = Matcher::regular_expression("^Line$", false).unwrap();
    assert!(matcher.matches("Line"));
    assert!(!matcher.matches("Line 1"));
}

#[test]
fn regex_matcher_refuses_an_unbalanced_class() {
    let error = Matcher::new("[", Mode::Regex, false).err().unwrap();
    assert_eq!("[", error.pattern);
    let error = Matcher::new("[", Mode::Regex, true).err().unwrap();
    assert_eq!("[", error.pattern);
    let error = Matcher::regular_expression("a(b", false).err().unwrap();
    assert_eq!("a(b", error.pattern);
}

#[test]
fn regex_source_puts_the_flag_before_the_pattern() {
    assert_eq!("(?i)a|b", Matcher::regex_source("a|b", true));
    assert_eq!("a|b", Matcher::regex_source("a|b", false));
}

#[test]
fn from_compiled_turns_a_refusal_into_a_pattern_error() {
    let error = Matcher::from_compiled("[", true, regex::Regex::new("(?i)[")).err().unwrap();
    assert_eq!("[", error.pattern);
    let matcher = Matcher::from_compiled("a+", false, regex::Regex::new("a+")).unwrap();
    assert!(matcher.matches("caab"));
    assert!(!matcher.matches("cb"));
    assert_eq!("a+", matcher.pattern());
}

const POEM: &str = "\
Rust:
safe, fast, productive.
Pick three.
Duct tape.";

fn hit(number: usize, text: &str) -> Match {
    Match { number, text: text.to_string() }
}

#[test]
fn search_text_numbers_the_lines_from_one() {
    let matcher = Matcher::literal("duct", false);
    assert_eq!(vec![hit(2, "safe, fast, productive.")], search_text(&matcher, POEM));
    let matcher = Matcher::literal("u", false);
    assert_eq!(
        vec![hit(1, "Rust:"), hit(2, "safe, fast, productive."), hit(4, "Duct tape.")],
        search_text(&matcher, POEM)
    );
}

#[test]
fn search_text_reports_lines_in_growing_order_of_their_numbers() {
    let text: String = (1..=30).map(|n| format!("line {n}\n")).collect();
    let matcher = Matcher::new("line \\d*[05]$", Mode::Regex, false).unwrap();
    let found = search_text(&matcher, &text);
    let numbers: Vec<usize> = found.iter().map(|hit| hit.number).collect();
    assert_eq!(vec![5, 10, 15, 20, 25, 30], numbers);
    for hit in &found {
        assert_eq!(format!("line {}", hit.number), hit.text);
    }
}

#[test]
fn search_text_twice_gives_the_same_records() {
    let matcher = Matcher::new("U", Mode::Literal, true).unwrap();
    let first: Vec<String> = search_text(&matcher, POEM).iter().map(|hit| hit.record()).collect();
    let again = Matcher::new("U", Mode::Literal, true).unwrap();
    let second: Vec<String> = search_text(&again, POEM).iter().map(|hit| hit.record()).collect();
    assert_eq!(first, second);
    assert_eq!(3, first.len());
}

#[test]
fn matching_lines_gives_the_lines_themselves() {
    let matcher = Matcher::new("^P|:$", Mode::Regex, false).unwrap();
    assert_eq!(vec!["Rust:", "Pick three."], matching_lines(&matcher, POEM));
}

#[test]
fn record_is_line_number_colon_text_and_a_line_feed() {
    assert_eq!("Line 2: safe, fast, productive.\n", hit(2, "safe, fast, productive.").record());
    assert_eq!("Line 1: \n", hit(1, "").record());
    assert_eq!("Line 10: x\n", hit(10, "x").record());
    assert_eq!("Line 1234567890: Line 1: y\n", hit(1234567890, "Line 1: y").record());
}

#[test]
fn scan_counts_every_line_and_hands_out_the_ones_that_match() {
    let mut scan = Scan::new(Matcher::literal("a", false));
    assert_eq!(0, scan.lines_seen());
    assert_eq!(None, scan.feed("b"));
    assert_eq!(Some(hit(2, "ab")), scan.feed("ab"));
    assert_eq!(None, scan.feed(""));
    assert_eq!(Some(hit(4, "a")), scan.feed("a"));
    assert_eq!(4, scan.lines_seen());
    assert!(scan.finish().any_match_found);
}

#[test]
fn scan_without_a_match_says_so() {
    let mut scan = Scan::new(Matcher::literal("a", false));
    assert_eq!(None, scan.feed("b"));
    assert_eq!(None, scan.feed("c"));
    assert!(!scan.finish().any_match_found);
    assert!(!Scan::new(Matcher::literal("", false)).finish().any_match_found);
}
