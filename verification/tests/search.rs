use minigrep::config::{SearchConfig, UsageError};
use minigrep::matcher::Mode;
use minigrep::session::Notice;
use minigrep::{add_one, run, search, search_case_insensitive, Config};

const POEM: &str = "\
Rust:
safe, fast, productive.
Pick three.
Duct tape.";

#[test]
fn one_result() {
    let query = "duct";
    let contents = "\
Rust:
safe, fast, productive.
Pick three.
Duct tape.";
    assert_eq!(vec!["safe, fast, productive."], search(query, contents));
}

#[test]
fn case_insensitive() {
    let query = "rUsT";
    let contents = "\
Rust:
safe, fast, productive.
Pick three.
Trust me.";

    assert_eq!(
        vec!["Rust:", "Trust me."],
        search_case_insensitive(query, contents)
    );
}

#[test]
fn search_finds_nothing_where_nothing_matches() {
    assert_eq!(Vec::<&str>::new(), search("monomorphization", POEM));
    assert_eq!(Vec::<&str>::new(), search("duct", ""));
}

#[test]
fn search_keeps_the_order_of_the_text() {
    assert_eq!(vec!["Rust:", "safe, fast, productive.", "Duct tape."], search("u", POEM));
    assert_eq!(vec!["b", "b", "ab"], search("b", "b\na\nb\nab"));
}

#[test]
fn search_with_an_empty_query_finds_every_line() {
    assert_eq!(vec!["a", "", "b"], search("", "a\n\nb\n"));
}

#[test]
fn search_splits_at_line_feeds_and_drops_one_carriage_return() {
    assert_eq!(vec!["one", "", "one\r"], search("", "one\r\n\none\r"));
    assert_eq!(vec!["one\r"], search("one", "one\r\r\ntwo\n"));
    assert_eq!(vec![""], search("", "\n"));
}

#[test]
fn search_does_not_match_across_lines() {
    assert_eq!(Vec::<&str>::new(), search("ab", "a\nb"));
}

#[test]
fn search_matches_text_outside_ascii() {
    assert_eq!(vec!["grüße aus köln"], search("üße", "hallo\ngrüße aus köln\n"));
    assert_eq!(vec!["GRÜSSE"], search_case_insensitive("grü", "GRÜSSE\nGRUSS"));
}

#[test]
fn case_insensitive_search_is_the_same_for_any_case_of_query_and_text() {
    let lower = search_case_insensitive("rust", "rust:\ntrust me.\nno");
    let upper = search_case_insensitive("RUST", "RUST:\nTRUST ME.\nNO");
    let mixed = search_case_insensitive("rUsT", "Rust:\nTrust me.\nNo");
    assert_eq!(vec!["rust:", "trust me."], lower);
    assert_eq!(vec!["RUST:", "TRUST ME."], upper);
    assert_eq!(vec!["Rust:", "Trust me."], mixed);
}

#[test]
fn add_one_adds_one() {
    assert_eq!(6, add_one(5));
    assert_eq!(0, add_one(-1));
    assert_eq!(i32::MAX, add_one(i32::MAX - 1));
}

fn words(list: &[&str]) -> Vec<String> {
    list.iter().map(|word| word.to_string()).collect()
}

#[test]
fn build_takes_query_and_file_from_the_words() {
    let config = Config::build(words(&["prog", "needle", "poem.txt"]).into_iter(), false);
    assert_eq!(
        Ok(Config {
            query: "needle".to_string(),
            file_path: "poem.txt".to_string(),
            ignore_case: false
        }),
        config
    );
    let config = Config::build(words(&["prog", "needle", "poem.txt", "more"]).into_iter(), true);
    assert_eq!(
        Ok(Config {
            query: "needle".to_string(),
            file_path: "poem.txt".to_string(),
            ignore_case: true
        }),
        config
    );
}

#[test]
fn build_says_which_word_is_missing() {
    assert_eq!(
        Err("Didn't get a query string"),
        Config::build(words(&[]).into_iter(), false)
    );
    assert_eq!(
        Err("Didn't get a query string"),
        Config::build(words(&["prog"]).into_iter(), false)
    );
    assert_eq!(
        Err("Didn't get a file path"),
        Config::build(words(&["prog", "needle"]).into_iter(), true)
    );
}

#[test]
fn build_refuses_an_empty_query() {
    assert_eq!(
        Err("Didn't get a query string"),
        Config::build(words(&["prog", "", "poem.txt"]).into_iter(), false)
    );
    assert_eq!(
        Err("Didn't get a query string"),
        Config::build(words(&["prog", ""]).into_iter(), true)
    );
    assert!(Config::build(words(&["prog", " ", "poem.txt"]).into_iter(), false).is_ok());
}

fn plain(query: &str, ignore_case: bool) -> Config {
    Config { query: query.to_string(), file_path: "poem.txt".to_string(), ignore_case }
}

#[test]
fn run_searches_as_the_configuration_says() {
    let done = run(&plain("duct", false), POEM);
    assert!(done.result.is_ok());
    assert_eq!(vec!["Line 2: safe, fast, productive.\n"], done.written);
    assert_eq!(vec![Notice::ResultsOnConsole], done.notices);

    let done = run(&plain("duct", true), POEM);
    assert!(done.result.is_ok());
    assert_eq!(vec!["Line 2: safe, fast, productive.\n", "Line 4: Duct tape.\n"], done.written);
    assert_eq!(vec![Notice::ResultsOnConsole], done.notices);
}

#[test]
fn run_writes_the_lines_that_search_finds_under_their_numbers() {
    let text = "b\r\nab\n\nB\nxbx";
    for (query, ignore_case) in [("b", false), ("b", true), ("B", true), ("x", false), ("\r", false)] {
        let lines = if ignore_case {
            search_case_insensitive(query, text)
        } else {
            search(query, text)
        };
        let done = run(&plain(query, ignore_case), text);
        assert_eq!(lines.len(), done.written.len());
        let mut last = 0;
        for (line, record) in lines.iter().zip(&done.written) {
            let (head, rest) = record.split_once(": ").unwrap();
            let number: usize = head.strip_prefix("Line ").unwrap().parse().unwrap();
            assert!(last < number);
            last = number;
            assert_eq!(format!("{line}\n"), rest);
            assert_eq!(Some(*line), text.lines().nth(number - 1));
        }
    }
}

#[test]
fn run_without_a_match_writes_nothing_and_says_so() {
    let done = run(&plain("monomorphization", false), POEM);
    assert!(done.result.is_ok());
    assert_eq!(Vec::<String>::new(), done.written);
    assert_eq!(vec![Notice::ResultsOnConsole, Notice::NoMatches], done.notices);
    let done = run(&plain("rust", true), "");
    assert_eq!(Vec::<String>::new(), done.written);
    assert_eq!(vec![Notice::ResultsOnConsole, Notice::NoMatches], done.notices);
}

#[test]
fn run_twice_gives_the_same() {
    let first = run(&plain("T", true), POEM);
    let second = run(&plain("T", true), POEM);
    assert_eq!(first.written, second.written);
    assert_eq!(first.notices, second.notices);
    assert_eq!(4, first.written.len());
}

#[test]
fn from_args_reads_mode_pattern_and_file() {
    let config = SearchConfig::from_args(&words(&["prog", "search", "Error", "log.txt"]), false)
        .unwrap();
    assert_eq!("Error", config.pattern());
    assert_eq!(Mode::Literal, config.mode());
    assert!(!config.case_insensitive());
    assert_eq!("log.txt", config.source_path());
    assert_eq!(None, config.destination());
}

#[test]
fn from_args_reads_the_options_in_any_order() {
    let args = words(&["prog", "regex", "error\\d+", "log.txt", "out.txt", "--ignore-case"]);
    let config = SearchConfig::from_args(&args, false).unwrap();
    assert_eq!("error\\d+", config.pattern());
    assert_eq!(Mode::Regex, config.mode());
    assert!(config.case_insensitive());
    assert_eq!(Some("out.txt"), config.destination());

    let args = words(&["prog", "regex", "x", "log.txt", "--ignore-case", "out.txt", "other.txt"]);
    let config = SearchConfig::from_args(&args, false).unwrap();
    assert!(config.case_insensitive());
    assert_eq!(Some("out.txt"), config.destination());

    let args = words(&["prog", "search", "x", "log.txt", "--ignore-case", "--ignore-case"]);
    let config = SearchConfig::from_args(&args, false).unwrap();
    assert!(config.case_insensitive());
    assert_eq!(None, config.destination());
}

#[test]
fn from_args_lets_the_caller_force_case_to_be_ignored() {
    let args = words(&["prog", "search", "x", "log.txt"]);
    assert!(!SearchConfig::from_args(&args, false).unwrap().case_insensitive());
    assert!(SearchConfig::from_args(&args, true).unwrap().case_insensitive());
}

#[test]
fn from_args_refuses_a_command_line_that_is_too_short() {
    for n in 0..4 {
        let args = words(&["prog", "search", "x"][..n.min(3)]);
        assert_eq!(
            Some(UsageError::MissingArguments),
            SearchConfig::from_args(&args, false).err()
        );
    }
}

#[test]
fn from_args_refuses_an_unknown_mode() {
    let args = words(&["prog", "grep", "x", "log.txt"]);
    let error = SearchConfig::from_args(&args, false).err().unwrap();
    assert_eq!(UsageError::InvalidMode("grep".to_string()), error);
    assert_eq!("Invalid mode 'grep'. Use 'search' or 'regex'.", error.message());
}

#[test]
fn from_args_refuses_an_empty_pattern() {
    let args = words(&["prog", "search", "", "log.txt"]);
    assert_eq!(Some(UsageError::EmptyPattern), SearchConfig::from_args(&args, false).err());
    let args = words(&["prog", "grep", "", "log.txt"]);
    assert_eq!(
        Some(UsageError::InvalidMode("grep".to_string())),
        SearchConfig::from_args(&args, false).err()
    );
}

#[test]
fn usage_errors_have_their_texts() {
    assert_eq!(
        "Usage: cargo run -- <mode> <search_string> <file_path> [output_file] [--ignore-case]",
        UsageError::MissingArguments.message()
    );
    assert_eq!("The search string is empty.", UsageError::EmptyPattern.message());
}

#[test]
fn new_configuration_needs_a_pattern() {
    assert_eq!(
        Some(UsageError::EmptyPattern),
        SearchConfig::new("", Mode::Literal, false, "a.txt", None).err()
    );
    let config = SearchConfig::new("p", Mode::Regex, true, "a.txt", Some("b.txt")).unwrap();
    assert_eq!("p", config.pattern());
    assert_eq!(Mode::Regex, config.mode());
    assert!(config.case_insensitive());
    assert_eq!("a.txt", config.source_path());
    assert_eq!(Some("b.txt"), config.destination());
}
