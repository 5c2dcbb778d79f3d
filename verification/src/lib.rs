//! Line-oriented text search: literal and regular-expression matching of the
//! lines of a text, with the matching lines reported by number.

use vstd::prelude::*;
use vstd::std_specs::iter::IteratorSpec;

pub mod config;
pub mod lines;
pub mod matcher;
pub mod scan;
pub mod session;
pub mod text;

use crate::config::{strategy_of, Settings};
use crate::lines::{lines_of, texts_of};
use crate::matcher::{accepts, Matcher, Mode};
use crate::scan::{
    hits_of, lemma_report_texts, matching_lines, record_of, report, search_text, texts_reported,
};
use crate::session::{complete, contents_of, notices_of, records_of, Notice, Transcript};
use crate::text::{lowercase_of, occurs_in};

verus! {

/// What a plain search is asked to do.
#[derive(Debug, PartialEq, Eq)]
pub struct Config {
    /// The text to look for.
    pub query: String,
    /// The file to search.
    pub file_path: String,
    /// Whether case is ignored.
    pub ignore_case: bool,
}

/// The settings of the search that a plain configuration asks for: the
/// query is looked for as it stands, and the results go to the console.
pub open spec fn settings_of(config: Config) -> Settings {
    Settings {
        pattern: config.query@,
        mode: Mode::Literal,
        case_insensitive: config.ignore_case,
        source_path: config.file_path@,
        destination: None,
    }
}

impl Config {
    /// The configuration that the words of a command line give: the first
    /// word is the program name, the second the query, the third the file.
    /// Whether case is ignored is not among the words; `ignore_case` says it.
    /// A query that is missing or empty is refused, and so is a missing
    /// file. The contract speaks of the words that `args` yields, and holds
    /// of an iterator that yields them one by one and then ends.
    pub fn build(mut args: impl Iterator<Item = String>, ignore_case: bool) -> (made: Result<
        Config,
        &'static str,
    >)
        ensures
            args.obeys_prophetic_iter_laws() ==> match made {
                Ok(config) => {
                    &&& args.remaining().len() > 2
                    &&& args.remaining()[1]@.len() > 0
                    &&& config == (Config {
                        query: args.remaining()[1],
                        file_path: args.remaining()[2],
                        ignore_case,
                    })
                },
                Err(text) => if args.remaining().len() < 2 || args.remaining()[1]@.len() == 0 {
                    text@ == "Didn't get a query string"@
                } else {
                    args.remaining().len() == 2 && text@ == "Didn't get a file path"@
                },
            },
    {
        args.next();
        let query = match args.next() {
            Some(arg) => arg,
            None => {
                return Err("Didn't get a query string");
            },
        };
        if query.as_str().is_empty() {
            return Err("Didn't get a query string");
        }
        let file_path = match args.next() {
            Some(arg) => arg,
            None => {
                return Err("Didn't get a file path");
            },
        };
        Ok(Config { query, file_path, ignore_case })
    }
}

/// Runs the search that `config` asks for over `contents`, the contents of
/// its file, and gives back what is to be written to the console and what
/// is to be told.
///
/// A configuration has a query that is not empty, as `build` sees to. The
/// search always succeeds. Each line that `search` or
/// `search_case_insensitive` finds, as `config` chooses between them, is
/// written as its record: `Line`, its number in the contents counted from
/// 1, a colon, the line, and a line feed. The records keep the order of the
/// contents. The user is told that the results go to the console and,
/// where no line matches, that nothing matched.
pub fn run(config: &Config, contents: &str) -> (done: Transcript)
    requires
        config.query@.len() > 0,
    ensures
        done.result is Ok,
        complete(settings_of(*config), lines_of(contents@), done),
        texts_reported(report(strategy_of(settings_of(*config)), lines_of(contents@)))
            == lines_of(contents@).filter(
            |line: Seq<char>|
                if config.ignore_case {
                    occurs_in(lowercase_of(config.query@), lowercase_of(line))
                } else {
                    occurs_in(config.query@, line)
                },
        ),
{
    let ghost strategy = strategy_of(settings_of(*config));
    let ghost lines = lines_of(contents@);
    let matcher = Matcher::literal(config.query.as_str(), config.ignore_case);
    let found = search_text(&matcher, contents);
    let mut written: Vec<String> = Vec::new();
    let mut i: usize = 0;
    while i < found.len()
        invariant
            i <= found.len(),
            written.len() == i,
            forall|k: int| 0 <= k < i ==> written@[k]@ == record_of(found@[k]@),
        decreases found.len() - i,
    {
        let record = found[i].record();
        written.push(record);
        i += 1;
    }
    let mut notices: Vec<Notice> = Vec::new();
    notices.push(Notice::ResultsOnConsole);
    if found.len() == 0 {
        notices.push(Notice::NoMatches);
    }
    proof {
        assert(hits_of(found@).len() == found@.len());
        assert(contents_of(written@) =~= records_of(report(strategy, lines))) by {
            assert forall|k: int| 0 <= k < written@.len() implies contents_of(written@)[k]
                == records_of(report(strategy, lines))[k] by {
                assert(hits_of(found@)[k] == found@[k]@);
            }
        }
        assert(notices@ =~= notices_of(settings_of(*config), lines));
        lemma_report_texts(strategy, lines);
        let by_matcher = |line: Seq<char>| accepts(strategy, line);
        let by_config = |line: Seq<char>|
            if config.ignore_case {
                occurs_in(lowercase_of(config.query@), lowercase_of(line))
            } else {
                occurs_in(config.query@, line)
            };
        assert(by_matcher =~= by_config);
    }
    Transcript { written, notices, result: Ok(()) }
}

/// The lines of `contents` that hold `query`, in their order.
pub fn search<'a>(query: &str, contents: &'a str) -> (found: Vec<&'a str>)
    ensures
        texts_of(found@) == lines_of(contents@).filter(|line: Seq<char>| occurs_in(query@, line)),
{
    let matcher = Matcher::literal(query, false);
    proof {
        let by_matcher = |line: Seq<char>| accepts(matcher@, line);
        let by_query = |line: Seq<char>| occurs_in(query@, line);
        assert(by_matcher =~= by_query);
    }
    matching_lines(&matcher, contents)
}

/// The lines of `contents` that hold `query` when case is ignored: those
/// whose lowercase form holds the lowercase form of `query`.
pub fn search_case_insensitive<'a>(query: &str, contents: &'a str) -> (found: Vec<&'a str>)
    ensures
        texts_of(found@) == lines_of(contents@).filter(
            |line: Seq<char>| occurs_in(lowercase_of(query@), lowercase_of(line)),
        ),
{
    let matcher = Matcher::literal(query, true);
    proof {
        let by_matcher = |line: Seq<char>| accepts(matcher@, line);
        let by_query = |line: Seq<char>| occurs_in(lowercase_of(query@), lowercase_of(line));
        assert(by_matcher =~= by_query);
    }
    matching_lines(&matcher, contents)
}

/// One more than `x`.
pub fn add_one(x: i32) -> (r: i32)
    requires
        x < i32::MAX,
    ensures
        r == x + 1,
{
    x + 1
}

} // verus!
