//! The search as a sequence of steps. The search decides what is to be done
//! next; whoever drives it does that and reports how it went. Opening the
//! source, opening the sink, reading a line and writing a record are the
//! driver's work; what follows from each of them is decided here.

use vstd::prelude::*;
use vstd::string::StringExecFns;
use crate::config::{strategy_of, SearchConfig, Settings};
use crate::matcher::{
    accepts, compiles, expression_of, finds_match, source_of, well_formed, Matcher, Mode,
    PatternError,
};
use crate::scan::{
    lemma_nothing_reported, lemma_regex_report, lemma_report_empty, lemma_report_push, record_of,
    report, Hit, Scan,
};
use crate::lines::{lines_of, LineScanner};

verus! {

/// The operation that failed on the source or on the sink.
#[derive(Clone, Copy, Debug, PartialEq, Eq, Structural)]
pub enum IoFailure {
    /// The source could not be opened.
    OpenSource,
    /// The destination could not be created.
    OpenDestination,
    /// A line could not be read.
    Read,
    /// A record could not be written.
    Write,
}

/// The text that names a failed operation.
pub open spec fn failure_text(failure: IoFailure) -> Seq<char> {
    match failure {
        IoFailure::OpenSource => "cannot open source"@,
        IoFailure::OpenDestination => "cannot open destination"@,
        IoFailure::Read => "cannot read source"@,
        IoFailure::Write => "cannot write result"@,
    }
}

impl IoFailure {
    /// The text that names this failure.
    pub fn message(&self) -> (text: &'static str)
        ensures
            text@ == failure_text(*self),
    {
        match self {
            IoFailure::OpenSource => "cannot open source",
            IoFailure::OpenDestination => "cannot open destination",
            IoFailure::Read => "cannot read source",
            IoFailure::Write => "cannot write result",
        }
    }
}

/// Why a search ended without having run to the end of its source.
#[derive(Debug)]
pub enum SearchError {
    /// The pattern is no valid regular expression.
    Pattern(PatternError),
    /// An operation on the source or on the sink failed.
    Io(IoFailure),
}

impl SearchError {
    /// The text to show for this error.
    pub fn message(&self) -> (text: String)
        ensures
            text@ == match self {
                SearchError::Pattern(error) => "Invalid regex pattern '"@ + error.pattern@ + "'"@,
                SearchError::Io(failure) => failure_text(*failure),
            },
    {
        match self {
            SearchError::Pattern(error) => {
                let mut text = String::from_str("Invalid regex pattern '");
                text.append(error.pattern.as_str());
                text.append("'");
                text
            },
            SearchError::Io(failure) => String::from_str(failure.message()),
        }
    }
}

/// Something worth telling the user that is no error.
#[derive(Clone, Copy, Debug, PartialEq, Eq, Structural)]
pub enum Notice {
    /// No destination is configured: the results appear on the console.
    ResultsOnConsole,
    /// The source was read to its end and no line matched.
    NoMatches,
}

/// The text of a notice, for a search for `pattern` in the file at
/// `source_path`.
pub open spec fn notice_text(notice: Notice, pattern: Seq<char>, source_path: Seq<char>) -> Seq<
    char,
> {
    match notice {
        Notice::ResultsOnConsole =>
            "No output file specified. Results will be printed to the console."@,
        Notice::NoMatches => "No matches found for '"@ + pattern + "' in file '"@ + source_path
            + "'"@,
    }
}

impl Notice {
    /// The text to show for this notice.
    pub fn message(&self, pattern: &str, source_path: &str) -> (text: String)
        ensures
            text@ == notice_text(*self, pattern@, source_path@),
    {
        match self {
            Notice::ResultsOnConsole => String::from_str(
                "No output file specified. Results will be printed to the console.",
            ),
            Notice::NoMatches => {
                let mut text = String::from_str("No matches found for '");
                text.append(pattern);
                text.append("' in file '");
                text.append(source_path);
                text.append("'");
                text
            },
        }
    }
}

/// What the driver is to do next.
#[derive(Debug)]
pub enum Action {
    /// Open the file at this path for reading.
    OpenSource(String),
    /// Open the sink: the file at this path, created or emptied, or the
    /// console where there is no path.
    OpenSink(Option<String>),
    /// Tell the user, on the diagnostic channel.
    Notify(Notice),
    /// Read the next line of the source.
    ReadLine,
    /// Append this record to the sink, as it stands.
    Write(String),
    /// Nothing more: the search is over, with this result.
    Finish(Result<(), SearchError>),
}

/// How what the driver did went.
#[derive(Debug)]
pub enum Event {
    /// It is done.
    Done,
    /// It failed.
    Failed,
    /// The line that was read, without its terminator.
    Line(String),
    /// The source has no more lines.
    EndOfInput,
}

/// How far a search has come: what it has asked for and waits to hear of.
#[derive(Clone, Copy, Debug, PartialEq, Eq, Structural)]
pub enum Stage {
    /// It has asked for the source to be opened.
    OpeningSource,
    /// It has asked for the sink to be opened.
    OpeningSink,
    /// It has asked for the notice that results go to the console.
    Announcing,
    /// It has asked for the next line.
    Reading,
    /// It has asked for a record to be written.
    Writing,
    /// It has asked for the notice that nothing matched.
    Concluding,
    /// It is over.
    Finished,
}

/// Whether `event` can answer what a search at `stage` has asked for.
pub open spec fn answers(stage: Stage, event: Event) -> bool {
    match stage {
        Stage::OpeningSource | Stage::OpeningSink | Stage::Writing => event is Done
            || event is Failed,
        Stage::Announcing | Stage::Concluding => event is Done,
        Stage::Reading => event is Line || event is EndOfInput || event is Failed,
        Stage::Finished => false,
    }
}

/// The stage of a search together with what it holds at that stage.
enum Step {
    OpeningSource,
    OpeningSink,
    Announcing,
    Reading(Scan),
    Writing(Scan),
    Concluding,
    Finished,
}

/// A search in progress.
pub struct Search {
    config: SearchConfig,
    step: Step,
    lines: Ghost<Seq<Seq<char>>>,
}

impl Search {
    /// While lines are read, the scan looks for what the configuration asks
    /// for and has taken the lines read so far. Before that, none is read.
    #[verifier::type_invariant]
    spec fn coherent(&self) -> bool {
        match self.step {
            Step::OpeningSource | Step::OpeningSink | Step::Announcing => self.lines@.len() == 0,
            Step::Reading(scan) | Step::Writing(scan) => scan.strategy() == strategy_of(
                self.config@,
            ) && scan.lines() == self.lines@,
            Step::Concluding => report(strategy_of(self.config@), self.lines@).len() == 0,
            Step::Finished => true,
        }
    }

    /// What the search was asked to do.
    pub closed spec fn settings(&self) -> Settings {
        self.config@
    }

    /// How far the search has come.
    pub closed spec fn stage(&self) -> Stage {
        match self.step {
            Step::OpeningSource => Stage::OpeningSource,
            Step::OpeningSink => Stage::OpeningSink,
            Step::Announcing => Stage::Announcing,
            Step::Reading(_) => Stage::Reading,
            Step::Writing(_) => Stage::Writing,
            Step::Concluding => Stage::Concluding,
            Step::Finished => Stage::Finished,
        }
    }

    /// The lines read so far, in order.
    pub closed spec fn lines(&self) -> Seq<Seq<char>> {
        self.lines@
    }

    /// Whether the search can take `event` now: the event answers what the
    /// search has asked for, and a line still has a number to go by.
    pub open spec fn awaits(&self, event: Event) -> bool {
        &&& answers(self.stage(), event)
        &&& event is Line ==> self.lines().len() < usize::MAX
    }

    /// A search for what `config` asks, and its first step: to open the
    /// source.
    pub fn start(config: SearchConfig) -> (begun: (Search, Action))
        ensures
            begun.0.settings() == config@,
            begun.0.stage() == Stage::OpeningSource,
            begun.0.lines() == Seq::<Seq<char>>::empty(),
            begun.1 matches Action::OpenSource(path) && path@ == config@.source_path,
    {
        let path = config.source_path().to_owned();
        (
            Search { config, step: Step::OpeningSource, lines: Ghost(Seq::empty()) },
            Action::OpenSource(path),
        )
    }

    /// How far the search has come.
    pub fn current_stage(&self) -> (stage: Stage)
        ensures
            stage == self.stage(),
    {
        match &self.step {
            Step::OpeningSource => Stage::OpeningSource,
            Step::OpeningSink => Stage::OpeningSink,
            Step::Announcing => Stage::Announcing,
            Step::Reading(_) => Stage::Reading,
            Step::Writing(_) => Stage::Writing,
            Step::Concluding => Stage::Concluding,
            Step::Finished => Stage::Finished,
        }
    }

    /// Whether the search can take `event` now.
    pub fn accepts(&self, event: &Event) -> (ok: bool)
        ensures
            ok == self.awaits(*event),
    {
        proof {
            use_type_invariant(self);
        }
        match &self.step {
            Step::OpeningSource | Step::OpeningSink | Step::Writing(_) => match event {
                Event::Done | Event::Failed => true,
                _ => false,
            },
            Step::Announcing | Step::Concluding => match event {
                Event::Done => true,
                _ => false,
            },
            Step::Reading(scan) => match event {
                Event::Line(_) => scan.lines_seen() < usize::MAX,
                Event::EndOfInput | Event::Failed => true,
                _ => false,
            },
            Step::Finished => false,
        }
    }

    /// The step after the sink is open and the user knows where the results
    /// go: the matcher is built, once, and reading begins. Only a regular
    /// expression can be refused, and then nothing is read.
    fn begin_reading(config: SearchConfig) -> (next: (Search, Action))
        ensures
            next.0.settings() == config@,
            begins_reading(config@, next.0, next.1),
    {
        match Matcher::new(config.pattern(), config.mode(), config.case_insensitive()) {
            Ok(matcher) => {
                let scan = Scan::new(matcher);
                (
                    Search { config, step: Step::Reading(scan), lines: Ghost(Seq::empty()) },
                    Action::ReadLine,
                )
            },
            Err(error) => (
                Search { config, step: Step::Finished, lines: Ghost(Seq::empty()) },
                Action::Finish(Err(SearchError::Pattern(error))),
            ),
        }
    }

    /// Takes what the driver reports and says what is to be done next.
    ///
    /// A failure to open, read or write ends the search with the error of
    /// that operation. Once the source is open the sink is opened, and where
    /// that is the console the user is told so. Then the matcher is built;
    /// a pattern that is refused ends the search before any line is read.
    /// Each line read is counted and put to the matcher: one that matches
    /// is written, as its record, before the next is read. At the end of
    /// the source the search is over; where no line matched, the user is
    /// told so first.
    pub fn advance(self, event: Event) -> (next: (Search, Action))
        requires
            self.awaits(event),
        ensures
            next.0.settings() == self.settings(),
            match self.stage() {
                Stage::OpeningSource => if event is Done {
                    &&& next.0.stage() == Stage::OpeningSink
                    &&& next.0.lines() == self.lines()
                    &&& next.1 matches Action::OpenSink(path)
                    &&& match path {
                        Some(path) => self.settings().destination == Some(path@),
                        None => self.settings().destination is None,
                    }
                } else {
                    fails(self, next.0, next.1, IoFailure::OpenSource)
                },
                Stage::OpeningSink => if event is Failed {
                    fails(self, next.0, next.1, IoFailure::OpenDestination)
                } else if self.settings().destination is None {
                    &&& next.0.stage() == Stage::Announcing
                    &&& next.0.lines() == self.lines()
                    &&& next.1 matches Action::Notify(Notice::ResultsOnConsole)
                } else {
                    begins_reading(self.settings(), next.0, next.1)
                },
                Stage::Announcing => begins_reading(self.settings(), next.0, next.1),
                Stage::Reading => match event {
                    Event::Line(text) => {
                        &&& next.0.lines() == self.lines().push(text@)
                        &&& if accepts(strategy_of(self.settings()), text@) {
                            &&& next.0.stage() == Stage::Writing
                            &&& next.1 matches Action::Write(record)
                            &&& record@ == record_of(
                                Hit { number: self.lines().len() + 1, text: text@ },
                            )
                        } else {
                            &&& next.0.stage() == Stage::Reading
                            &&& next.1 is ReadLine
                        }
                    },
                    Event::EndOfInput => {
                        &&& next.0.lines() == self.lines()
                        &&& if report(strategy_of(self.settings()), self.lines()).len() == 0 {
                            &&& next.0.stage() == Stage::Concluding
                            &&& next.1 matches Action::Notify(Notice::NoMatches)
                        } else {
                            &&& next.0.stage() == Stage::Finished
                            &&& next.1 matches Action::Finish(Ok(_))
                        }
                    },
                    _ => fails(self, next.0, next.1, IoFailure::Read),
                },
                Stage::Writing => if event is Done {
                    &&& next.0.stage() == Stage::Reading
                    &&& next.0.lines() == self.lines()
                    &&& next.1 is ReadLine
                } else {
                    fails(self, next.0, next.1, IoFailure::Write)
                },
                Stage::Concluding => {
                    &&& next.0.stage() == Stage::Finished
                    &&& next.0.lines() == self.lines()
                    &&& next.1 matches Action::Finish(Ok(_))
                },
                Stage::Finished => true,
            },
    {
        proof {
            use_type_invariant(&self);
        }
        let Search { config, step, lines } = self;
        match step {
            Step::OpeningSource => match event {
                Event::Done => {
                    let path = match config.destination() {
                        Some(path) => Some(path.to_owned()),
                        None => None,
                    };
                    (Search { config, step: Step::OpeningSink, lines }, Action::OpenSink(path))
                },
                _ => Search::fail(config, lines, IoFailure::OpenSource),
            },
            Step::OpeningSink => match event {
                Event::Failed => Search::fail(config, lines, IoFailure::OpenDestination),
                _ => {
                    if config.destination().is_none() {
                        (
                            Search { config, step: Step::Announcing, lines },
                            Action::Notify(Notice::ResultsOnConsole),
                        )
                    } else {
                        Search::begin_reading(config)
                    }
                },
            },
            Step::Announcing => Search::begin_reading(config),
            Step::Reading(scan) => match event {
                Event::Line(text) => {
                    let mut scan = scan;
                    let found = scan.feed(text.as_str());
                    let lines = Ghost(scan.lines());
                    match found {
                        Some(hit) => {
                            let record = hit.record();
                            (
                                Search { config, step: Step::Writing(scan), lines },
                                Action::Write(record),
                            )
                        },
                        None => (
                            Search { config, step: Step::Reading(scan), lines },
                            Action::ReadLine,
                        ),
                    }
                },
                Event::EndOfInput => {
                    let result = scan.finish();
                    if result.any_match_found {
                        (Search { config, step: Step::Finished, lines }, Action::Finish(Ok(())))
                    } else {
                        (
                            Search { config, step: Step::Concluding, lines },
                            Action::Notify(Notice::NoMatches),
                        )
                    }
                },
                _ => Search::fail(config, lines, IoFailure::Read),
            },
            Step::Writing(scan) => match event {
                Event::Done => (Search { config, step: Step::Reading(scan), lines }, Action::ReadLine),
                _ => Search::fail(config, lines, IoFailure::Write),
            },
            Step::Concluding => (
                Search { config, step: Step::Finished, lines },
                Action::Finish(Ok(())),
            ),
            // Nothing answers a search that is over.
            Step::Finished => (Search { config, step: Step::Finished, lines }, Action::Finish(Ok(()))),
        }
    }

    /// The end of a search on which an operation failed.
    fn fail(config: SearchConfig, lines: Ghost<Seq<Seq<char>>>, failure: IoFailure) -> (next: (
        Search,
        Action,
    ))
        ensures
            next.0.settings() == config@,
            next.0.stage() == Stage::Finished,
            next.0.lines() == lines@,
            next.1 matches Action::Finish(Err(SearchError::Io(reason))) && reason == failure,
    {
        (
            Search { config, step: Step::Finished, lines },
            Action::Finish(Err(SearchError::Io(failure))),
        )
    }
}

/// The search ends with the error of the operation that failed; the lines
/// read so far stay read.
pub open spec fn fails(before: Search, after: Search, action: Action, failure: IoFailure) -> bool {
    &&& after.stage() == Stage::Finished
    &&& after.lines() == before.lines()
    &&& action matches Action::Finish(Err(SearchError::Io(reason)))
    &&& reason == failure
}

/// Reading begins with no line read yet where there is a matcher for what
/// the settings ask. Where the compiler refuses the regular expression,
/// the search ends with the pattern as it was given.
pub open spec fn begins_reading(settings: Settings, after: Search, action: Action) -> bool {
    &&& after.lines().len() == 0
    &&& if well_formed(strategy_of(settings)) {
        &&& after.stage() == Stage::Reading
        &&& action is ReadLine
    } else {
        &&& after.stage() == Stage::Finished
        &&& action matches Action::Finish(Err(SearchError::Pattern(error)))
        &&& error.pattern@ == settings.pattern
    }
}

/// The records written for a sequence of hits, one for each, in order.
pub open spec fn records_of(hits: Seq<Hit>) -> Seq<Seq<char>> {
    Seq::new(hits.len(), |i: int| record_of(hits[i]))
}

/// The texts that a vector of strings holds.
pub open spec fn contents_of(strings: Seq<String>) -> Seq<Seq<char>> {
    Seq::new(strings.len(), |i: int| strings[i]@)
}

/// The notice that results go to the console, where no destination is
/// configured.
pub open spec fn opening_notices(settings: Settings) -> Seq<Notice> {
    if settings.destination is None {
        seq![Notice::ResultsOnConsole]
    } else {
        Seq::empty()
    }
}

/// The notices of a search that read its source to the end: where its
/// results go, if that is the console, and that nothing matched, if so.
pub open spec fn notices_of(settings: Settings, lines: Seq<Seq<char>>) -> Seq<Notice> {
    if report(strategy_of(settings), lines).len() == 0 {
        opening_notices(settings).push(Notice::NoMatches)
    } else {
        opening_notices(settings)
    }
}

/// A search in which no line matches writes nothing, and the last thing it
/// tells is that nothing matched.
pub proof fn lemma_silent_search(settings: Settings, lines: Seq<Seq<char>>)
    requires
        forall|k: int| 0 <= k < lines.len() ==> !accepts(strategy_of(settings), #[trigger] lines[k]),
    ensures
        records_of(report(strategy_of(settings), lines)).len() == 0,
        notices_of(settings, lines).len() > 0,
        notices_of(settings, lines).last() == Notice::NoMatches,
{
    lemma_nothing_reported(strategy_of(settings), lines);
}

/// What a search did from its start to its end.
#[derive(Debug)]
pub struct Transcript {
    /// The records it had written, in order.
    pub written: Vec<String>,
    /// The notices it gave, in order.
    pub notices: Vec<Notice>,
    /// How it ended.
    pub result: Result<(), SearchError>,
}

/// Whether `done` is what a search with these settings does over these
/// lines when every operation on source and sink goes well.
///
/// The search succeeds exactly when there is a matcher for what it looks
/// for: always for a literal pattern, and for a regular expression when the
/// compiler accepts it. A search that succeeds has written the record of
/// every line that matches, in the order of the text and nothing else, and
/// has said where its results go if that is the console, and that nothing
/// matched if so. A search whose pattern is refused ends before the first
/// line: nothing is written, and the error holds the pattern.
pub open spec fn complete(settings: Settings, lines: Seq<Seq<char>>, done: Transcript) -> bool {
    &&& done.result is Ok <==> well_formed(strategy_of(settings))
    &&& match done.result {
        Ok(_) => {
            &&& contents_of(done.written@) == records_of(report(strategy_of(settings), lines))
            &&& done.notices@ == notices_of(settings, lines)
        },
        Err(SearchError::Pattern(error)) => {
            &&& error.pattern@ == settings.pattern
            &&& done.written@.len() == 0
            &&& done.notices@ == opening_notices(settings)
        },
        Err(SearchError::Io(_)) => false,
    }
}

/// Two runs of one search over one text end alike, and have written the
/// same records and told the same notices.
pub proof fn lemma_same_search_same_run(
    settings: Settings,
    lines: Seq<Seq<char>>,
    first: Transcript,
    second: Transcript,
)
    requires
        complete(settings, lines, first),
        complete(settings, lines, second),
    ensures
        first.result is Ok <==> second.result is Ok,
        first.result matches Err(SearchError::Pattern(error)) ==> second.result matches Err(
            SearchError::Pattern(other),
        ) && other.pattern@ == error.pattern@,
        contents_of(first.written@) == contents_of(second.written@),
        first.notices@ == second.notices@,
{
    if first.result is Err {
        assert(contents_of(first.written@) =~= contents_of(second.written@));
    }
}

/// A run of a search by a regular expression that the compiler accepts
/// succeeds, and has written the records of exactly the lines in which the
/// expression finds a match: line `k + 1` is among the reported lines
/// exactly when a match is found in it.
pub proof fn lemma_regex_run(settings: Settings, lines: Seq<Seq<char>>, done: Transcript, k: int)
    requires
        complete(settings, lines, done),
        settings.mode == Mode::Regex,
        compiles(source_of(settings.pattern, settings.case_insensitive)),
        0 <= k < lines.len(),
    ensures
        done.result is Ok,
        contents_of(done.written@) == records_of(report(strategy_of(settings), lines)),
        report(strategy_of(settings), lines).contains(
            Hit { number: (k + 1) as nat, text: lines[k] },
        ) <==> finds_match(
            expression_of(source_of(settings.pattern, settings.case_insensitive)),
            lines[k],
        ),
{
    lemma_regex_report(settings.pattern, settings.case_insensitive, lines, k);
}

/// A run of a search for which there is a matcher, over lines of which none
/// matches, succeeds: it has written nothing, and the last thing it told is
/// that nothing matched. A run whose pattern is refused has written nothing
/// either.
pub proof fn lemma_silent_run(settings: Settings, lines: Seq<Seq<char>>, done: Transcript)
    requires
        complete(settings, lines, done),
        forall|k: int| 0 <= k < lines.len() ==> !accepts(strategy_of(settings), #[trigger] lines[k]),
    ensures
        done.written@.len() == 0,
        well_formed(strategy_of(settings)) ==> done.result is Ok && done.notices@.len() > 0
            && done.notices@.last() == Notice::NoMatches,
{
    lemma_silent_search(settings, lines);
    assert(contents_of(done.written@).len() == done.written@.len());
}

/// How the state of a run that is under way hangs together: what has been
/// written and told so far, for a search at its stage with `action`
/// pending, after `taken` of the lines.
spec fn on_course(
    settings: Settings,
    lines: Seq<Seq<char>>,
    search: Search,
    action: Action,
    taken: int,
    written: Seq<String>,
    notices: Seq<Notice>,
) -> bool {
    let found = report(strategy_of(settings), lines.take(taken));
    &&& search.settings() == settings
    &&& 0 <= taken <= lines.len()
    &&& search.lines() == lines.take(taken)
    &&& match search.stage() {
        Stage::OpeningSource => action is OpenSource && taken == 0 && written.len() == 0
            && notices.len() == 0,
        Stage::OpeningSink => action is OpenSink && taken == 0 && written.len() == 0
            && notices.len() == 0,
        Stage::Announcing => action matches Action::Notify(Notice::ResultsOnConsole) && taken == 0
            && written.len() == 0 && notices.len() == 0 && settings.destination is None,
        Stage::Reading => {
            &&& well_formed(strategy_of(settings))
            &&& action is ReadLine
            &&& contents_of(written) == records_of(found)
            &&& notices == opening_notices(settings)
        },
        Stage::Writing => {
            &&& well_formed(strategy_of(settings))
            &&& action matches Action::Write(record)
            &&& contents_of(written).push(record@) == records_of(found)
            &&& notices == opening_notices(settings)
        },
        Stage::Concluding => {
            &&& well_formed(strategy_of(settings))
            &&& action matches Action::Notify(Notice::NoMatches)
            &&& taken == lines.len()
            &&& written.len() == 0
            &&& found.len() == 0
            &&& notices == opening_notices(settings)
        },
        Stage::Finished => match action {
            Action::Finish(Ok(_)) => well_formed(strategy_of(settings)) && taken == lines.len()
                && contents_of(written) == records_of(found) && notices == notices_of(
                settings,
                lines,
            ),
            Action::Finish(Err(SearchError::Pattern(error))) => !well_formed(
                strategy_of(settings),
            ) && error.pattern@ == settings.pattern && written.len() == 0 && notices
                == opening_notices(settings),
            _ => false,
        },
    }
}

/// How far a run still is from its end, among the stages that take no line.
spec fn rank(stage: Stage) -> nat {
    match stage {
        Stage::OpeningSource => 6,
        Stage::OpeningSink => 5,
        Stage::Announcing => 4,
        Stage::Writing => 3,
        Stage::Reading => 2,
        Stage::Concluding => 1,
        Stage::Finished => 0,
    }
}

/// Runs the search that `config` asks for over `text` in place of the
/// contents of its source, with every operation on source and sink going
/// well, and gives back what was written and told.
pub fn search_in_text(config: SearchConfig, text: &str) -> (done: Transcript)
    ensures
        complete(config@, lines_of(text@), done),
{
    let ghost settings = config@;
    let ghost all = lines_of(text@);
    let mut scanner = LineScanner::new(text);
    let mut written: Vec<String> = Vec::new();
    let mut notices: Vec<Notice> = Vec::new();
    let (mut search, mut action) = Search::start(config);
    proof {
        assert(all.take(0) =~= Seq::<Seq<char>>::empty());
        assert(all.skip(0) =~= all);
    }
    loop
        invariant
            settings == config@,
            all == lines_of(text@),
            scanner.taken() <= all.len(),
            scanner.pending() == all.skip(scanner.taken() as int),
            on_course(
                settings,
                all,
                search,
                action,
                scanner.taken() as int,
                written@,
                notices@,
            ),
        decreases all.len() - scanner.taken(), rank(search.stage()),
    {
        let ghost seen = scanner.taken() as int;
        let ghost before = search;
        let event = match action {
            Action::OpenSource(_) => Event::Done,
            Action::OpenSink(_) => Event::Done,
            Action::Notify(notice) => {
                notices.push(notice);
                Event::Done
            },
            Action::ReadLine => match scanner.next_line() {
                Some(line) => {
                    proof {
                        assert(all.skip(seen)[0] == all[seen]);
                        assert(all.take(seen + 1) =~= all.take(seen).push(line.text@));
                        assert(all.skip(seen).drop_first() =~= all.skip(seen + 1));
                        lemma_report_push(strategy_of(settings), all.take(seen), line.text@);
                    }
                    Event::Line(line.text.to_owned())
                },
                None => {
                    proof {
                        assert(all.take(seen) =~= all);
                    }
                    Event::EndOfInput
                },
            },
            Action::Write(record) => {
                written.push(record);
                Event::Done
            },
            Action::Finish(result) => {
                proof {
                    if result is Ok {
                        assert(all.take(seen) =~= all);
                    }
                }
                return Transcript { written, notices, result };
            },
        };
        let ghost taken = scanner.taken();
        let next = search.advance(event);
        search = next.0;
        action = next.1;
        proof {
            let now = report(strategy_of(settings), all.take(taken as int));
            match before.stage() {
                Stage::OpeningSource => {},
                Stage::OpeningSink => {
                    lemma_report_empty(strategy_of(settings));
                    assert(all.take(0) =~= Seq::<Seq<char>>::empty());
                    assert(search.lines() =~= all.take(0));
                    assert(contents_of(written@) =~= records_of(now));
                    if search.stage() != Stage::Announcing {
                        assert(notices@ =~= opening_notices(settings));
                    }
                },
                Stage::Announcing => {
                    lemma_report_empty(strategy_of(settings));
                    assert(all.take(0) =~= Seq::<Seq<char>>::empty());
                    assert(search.lines() =~= all.take(0));
                    assert(contents_of(written@) =~= records_of(now));
                    assert(notices@ =~= opening_notices(settings));
                },
                Stage::Reading => {
                    if event is Line {
                        if search.stage() == Stage::Writing {
                            assert(contents_of(written@).push(action->Write_0@) =~= records_of(
                                now,
                            ));
                        } else {
                            assert(contents_of(written@) =~= records_of(now));
                        }
                    } else {
                        assert(contents_of(written@) =~= records_of(now));
                        assert(contents_of(written@).len() == written@.len());
                        assert(records_of(now).len() == now.len());
                    }
                },
                Stage::Writing => {
                    assert(contents_of(written@) =~= records_of(now));
                },
                Stage::Concluding => {
                    assert(all.take(taken as int) =~= all);
                    assert(contents_of(written@) =~= records_of(now));
                    assert(notices@ =~= notices_of(settings, all));
                },
                _ => {},
            }
        }
    }
}

} // verus!
