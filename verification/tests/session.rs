use minigrep::config::SearchConfig;
use minigrep::matcher::Mode;
use minigrep::session::{
    search_in_text, Action, Event, IoFailure, Notice, Search, SearchError, Stage,
};

const POEM: &str = "\
Rust:
safe, fast, productive.
Pick three.
Duct tape.";

fn config(pattern: &str, mode: Mode, ignore_case: bool, destination: Option<&str>) -> SearchConfig {
    SearchConfig::new(pattern, mode, ignore_case, "poem.txt", destination).unwrap()
}

#[test]
fn literal_search_writes_the_line_that_matches() {
    let done = search_in_text(config("duct", Mode::Literal, false, Some("out.txt")), POEM);
    assert!(done.result.is_ok());
    assert_eq!(vec!["Line 2: safe, fast, productive.\n"], done.written);
    assert_eq!(Vec::<Notice>::new(), done.notices);
}

#[test]
fn literal_search_without_regard_to_case_writes_every_such_line() {
    let done = search_in_text(config("rUsT", Mode::Literal, true, Some("out.txt")), POEM);
    assert_eq!(vec!["Line 1: Rust:\n"], done.written);
    let text = "Rust:\nsafe, fast, productive.\nTrust me.";
    let done = search_in_text(config("RUST", Mode::Literal, true, Some("out.txt")), text);
    assert!(done.result.is_ok());
    assert_eq!(vec!["Line 1: Rust:\n", "Line 3: Trust me.\n"], done.written);
}

#[test]
fn regex_search_without_regard_to_case_reports_the_line() {
    let done = search_in_text(
        config("error\\d+", Mode::Regex, true, Some("out.txt")),
        "all well\nERROR42 occurred\n",
    );
    assert!(done.result.is_ok());
    assert_eq!(vec!["Line 2: ERROR42 occurred\n"], done.written);
}

#[test]
fn invalid_pattern_ends_the_search_before_a_line_is_read() {
    let done = search_in_text(config("[", Mode::Regex, false, Some("out.txt")), POEM);
    match done.result {
        Err(SearchError::Pattern(error)) => assert_eq!("[", error.pattern),
        other => panic!("{other:?}"),
    }
    assert_eq!(Vec::<String>::new(), done.written);
    assert_eq!(Vec::<Notice>::new(), done.notices);

    let (search, _) = Search::start(config("[", Mode::Regex, false, Some("out.txt")));
    let (search, _) = search.advance(Event::Done);
    let (search, action) = search.advance(Event::Done);
    assert!(matches!(action, Action::Finish(Err(SearchError::Pattern(_)))));
    assert_eq!(Stage::Finished, search.current_stage());
    assert!(!search.accepts(&Event::Line("Rust:".to_string())));
}

#[test]
fn search_without_destination_and_without_match_writes_nothing_and_says_so() {
    let done = search_in_text(config("monomorphization", Mode::Literal, false, None), POEM);
    assert!(done.result.is_ok());
    assert_eq!(Vec::<String>::new(), done.written);
    assert_eq!(vec![Notice::ResultsOnConsole, Notice::NoMatches], done.notices);
}

#[test]
fn search_with_a_match_gives_no_notice_of_none() {
    let done = search_in_text(config("u", Mode::Literal, false, None), POEM);
    assert!(done.result.is_ok());
    assert_eq!(3, done.written.len());
    assert_eq!(vec![Notice::ResultsOnConsole], done.notices);
    let done = search_in_text(config("t", Mode::Literal, false, Some("out.txt")), "");
    assert_eq!(Vec::<String>::new(), done.written);
    assert_eq!(vec![Notice::NoMatches], done.notices);
}

#[test]
fn the_same_search_twice_writes_the_same() {
    let first = search_in_text(config("[aeiou]{2}", Mode::Regex, true, None), POEM);
    let second = search_in_text(config("[aeiou]{2}", Mode::Regex, true, None), POEM);
    assert_eq!(first.written, second.written);
    assert_eq!(first.notices, second.notices);
    assert_eq!(vec!["Line 3: Pick three.\n"], first.written);
}

#[test]
fn search_asks_for_source_then_sink_then_lines() {
    let (search, action) = Search::start(config("a", Mode::Literal, false, Some("out.txt")));
    assert!(matches!(action, Action::OpenSource(ref path) if path == "poem.txt"));
    assert_eq!(Stage::OpeningSource, search.current_stage());
    assert!(search.accepts(&Event::Done));
    assert!(search.accepts(&Event::Failed));
    assert!(!search.accepts(&Event::EndOfInput));
    assert!(!search.accepts(&Event::Line("a".to_string())));

    let (search, action) = search.advance(Event::Done);
    assert!(matches!(action, Action::OpenSink(Some(ref path)) if path == "out.txt"));
    assert_eq!(Stage::OpeningSink, search.current_stage());

    let (search, action) = search.advance(Event::Done);
    assert!(matches!(action, Action::ReadLine));
    assert_eq!(Stage::Reading, search.current_stage());
    assert!(search.accepts(&Event::Line("a".to_string())));
    assert!(search.accepts(&Event::EndOfInput));
    assert!(search.accepts(&Event::Failed));
    assert!(!search.accepts(&Event::Done));

    let (search, action) = search.advance(Event::Line("b".to_string()));
    assert!(matches!(action, Action::ReadLine));

    let (search, action) = search.advance(Event::Line("ab".to_string()));
    assert!(matches!(action, Action::Write(ref record) if record == "Line 2: ab\n"));
    assert_eq!(Stage::Writing, search.current_stage());
    assert!(!search.accepts(&Event::EndOfInput));

    let (search, action) = search.advance(Event::Done);
    assert!(matches!(action, Action::ReadLine));

    let (search, action) = search.advance(Event::EndOfInput);
    assert!(matches!(action, Action::Finish(Ok(()))));
    assert_eq!(Stage::Finished, search.current_stage());
    assert!(!search.accepts(&Event::Done));
}

#[test]
fn search_announces_the_console_before_it_reads() {
    let (search, _) = Search::start(config("a", Mode::Literal, false, None));
    let (search, action) = search.advance(Event::Done);
    assert!(matches!(action, Action::OpenSink(None)));
    let (search, action) = search.advance(Event::Done);
    assert!(matches!(action, Action::Notify(Notice::ResultsOnConsole)));
    assert_eq!(Stage::Announcing, search.current_stage());
    assert!(!search.accepts(&Event::Failed));
    let (search, action) = search.advance(Event::Done);
    assert!(matches!(action, Action::ReadLine));
    let (search, action) = search.advance(Event::EndOfInput);
    assert!(matches!(action, Action::Notify(Notice::NoMatches)));
    assert_eq!(Stage::Concluding, search.current_stage());
    let (_, action) = search.advance(Event::Done);
    assert!(matches!(action, Action::Finish(Ok(()))));
}

fn failure_of(action: Action) -> IoFailure {
    match action {
        Action::Finish(Err(SearchError::Io(failure))) => failure,
        other => panic!("{other:?}"),
    }
}

#[test]
fn each_failed_operation_ends_the_search_with_its_error() {
    let (search, _) = Search::start(config("a", Mode::Literal, false, Some("out.txt")));
    let (search, action) = search.advance(Event::Failed);
    assert_eq!(IoFailure::OpenSource, failure_of(action));
    assert_eq!(Stage::Finished, search.current_stage());

    let (search, _) = Search::start(config("a", Mode::Literal, false, Some("out.txt")));
    let (search, _) = search.advance(Event::Done);
    let (_, action) = search.advance(Event::Failed);
    assert_eq!(IoFailure::OpenDestination, failure_of(action));

    let (search, _) = Search::start(config("a", Mode::Literal, false, Some("out.txt")));
    let (search, _) = search.advance(Event::Done);
    let (search, _) = search.advance(Event::Done);
    let (search, _) = search.advance(Event::Line("a".to_string()));
    let (search, _) = search.advance(Event::Done);
    let (_, action) = search.advance(Event::Failed);
    assert_eq!(IoFailure::Read, failure_of(action));

    let (search, _) = Search::start(config("a", Mode::Literal, false, Some("out.txt")));
    let (search, _) = search.advance(Event::Done);
    let (search, _) = search.advance(Event::Done);
    let (search, _) = search.advance(Event::Line("a".to_string()));
    let (_, action) = search.advance(Event::Failed);
    assert_eq!(IoFailure::Write, failure_of(action));
}

#[test]
fn errors_and_notices_have_their_texts() {
    assert_eq!("cannot open source", IoFailure::OpenSource.message());
    assert_eq!("cannot open destination", IoFailure::OpenDestination.message());
    assert_eq!("cannot read source", SearchError::Io(IoFailure::Read).message());
    assert_eq!("cannot write result", SearchError::Io(IoFailure::Write).message());
    let done = search_in_text(config("a(", Mode::Regex, false, None), POEM);
    assert_eq!("Invalid regex pattern 'a('", done.result.err().unwrap().message());
    assert_eq!(vec![Notice::ResultsOnConsole], done.notices);
    assert_eq!(
        "No output file specified. Results will be printed to the console.",
        Notice::ResultsOnConsole.message("a", "poem.txt")
    );
    assert_eq!(
        "No matches found for 'a' in file 'poem.txt'",
        Notice::NoMatches.message("a", "poem.txt")
    );
}
