//! The matcher: one predicate on lines behind four strategies, literal or
//! regular expression, each with or without regard to case.

use vstd::prelude::*;
use vstd::string::StringExecFns;
use crate::text::{lowercase_of, occurs, occurs_in};

verus! {

/// A regular expression compiled by the `regex` crate. Nothing inside it is
/// visible here: it is compiled, kept and asked for matches.
#[verifier::external_type_specification]
#[verifier::external_body]
pub struct ExRegex(regex::Regex);

/// The reason the `regex` crate gives for refusing a pattern.
#[verifier::external_type_specification]
#[verifier::external_body]
pub struct ExRegexError(regex::Error);

/// What `Regex::new` makes of `source`: the expression that it compiles, or
/// nothing where it refuses the source.
pub uninterp spec fn compiled(source: Seq<char>) -> Option<regex::Regex>;

/// Whether the compiler accepts `source`.
pub open spec fn compiles(source: Seq<char>) -> bool {
    compiled(source) is Some
}

/// The expression compiled from `source`, which the compiler accepts.
pub open spec fn expression_of(source: Seq<char>) -> regex::Regex
    recommends
        compiles(source),
{
    compiled(source)->0
}

/// Whether `Regex::is_match` finds a match of `expression` anywhere in
/// `haystack`.
pub uninterp spec fn finds_match(expression: regex::Regex, haystack: Seq<char>) -> bool;

/// `Regex::new` parses and compiles `re` with the crate's default options. It
/// refuses a pattern that is malformed, and one whose compiled form is larger
/// than its size limit. It looks at nothing but the source text and keeps
/// nothing from call to call, so what it makes of a source is named after
/// the source: the expression, or the refusal. Two expressions compiled from
/// one source find the same matches; the limit is counted on the compiled
/// form, so which sources pass it is fixed with the program.
pub assume_specification[ regex::Regex::new ](re: &str) -> (built: Result<
    regex::Regex,
    regex::Error,
>)
    ensures
        match built {
            Ok(expression) => compiled(re@) == Some(expression),
            Err(_) => compiled(re@) is None,
        },
;

/// `Regex::is_match` says whether the expression matches anywhere in the
/// haystack; the match need not span it. It searches from the start of the
/// haystack and always returns.
pub assume_specification[ regex::Regex::is_match ](
    expression: &regex::Regex,
    haystack: &str,
) -> (found: bool)
    ensures
        found == finds_match(*expression, haystack@),
;

/// How a pattern is read.
#[derive(Clone, Copy, Debug, PartialEq, Eq, Structural)]
pub enum Mode {
    /// The pattern is plain text, looked for as it stands.
    Literal,
    /// The pattern is a regular expression.
    Regex,
}

/// What a matcher looks for, and how.
pub struct Strategy {
    pub pattern: Seq<char>,
    pub mode: Mode,
    pub case_insensitive: bool,
}

/// The text that a literal search looks for in a line: the pattern, in
/// lowercase when case is ignored.
pub open spec fn needle_of(pattern: Seq<char>, case_insensitive: bool) -> Seq<char> {
    if case_insensitive {
        lowercase_of(pattern)
    } else {
        pattern
    }
}

/// The source that a regular-expression search compiles: the pattern, behind
/// the flag `(?i)` when case is ignored, so that the flag covers all of it.
pub open spec fn source_of(pattern: Seq<char>, case_insensitive: bool) -> Seq<char> {
    if case_insensitive {
        "(?i)"@ + pattern
    } else {
        pattern
    }
}

/// Whether a line matches under a strategy.
///
/// A literal pattern matches a line that holds it as a contiguous part; with
/// case ignored, pattern and line are both compared in lowercase. A regular
/// expression matches a line in which it finds a match anywhere.
pub open spec fn accepts(strategy: Strategy, line: Seq<char>) -> bool {
    match strategy.mode {
        Mode::Literal => if strategy.case_insensitive {
            occurs_in(lowercase_of(strategy.pattern), lowercase_of(line))
        } else {
            occurs_in(strategy.pattern, line)
        },
        Mode::Regex => finds_match(
            expression_of(source_of(strategy.pattern, strategy.case_insensitive)),
            line,
        ),
    }
}

/// Whether there is a matcher for a strategy: always for a literal pattern,
/// and for a regular expression when the compiler accepts its source.
pub open spec fn well_formed(strategy: Strategy) -> bool {
    strategy.mode == Mode::Regex ==> compiles(
        source_of(strategy.pattern, strategy.case_insensitive),
    )
}

/// A literal search that ignores case sees pattern and line only in their
/// lowercase forms: patterns with the same lowercase form match the same
/// lines, and lines with the same lowercase form are matched alike.
pub proof fn lemma_case_ignored(
    pattern: Seq<char>,
    other_pattern: Seq<char>,
    line: Seq<char>,
    other_line: Seq<char>,
)
    requires
        lowercase_of(pattern) == lowercase_of(other_pattern),
        lowercase_of(line) == lowercase_of(other_line),
    ensures
        accepts(Strategy { pattern, mode: Mode::Literal, case_insensitive: true }, line)
            == accepts(
            Strategy { pattern: other_pattern, mode: Mode::Literal, case_insensitive: true },
            other_line,
        ),
{
}

/// A pattern that is no valid regular expression.
#[derive(Debug)]
pub struct PatternError {
    /// The pattern as it was given.
    pub pattern: String,
}

/// The form in which a matcher keeps its pattern ready.
#[derive(Debug)]
enum Engine {
    /// The text to look for in a line.
    Substring(String),
    /// The compiled regular expression.
    Expression(regex::Regex),
}

/// A predicate on lines, built once from a pattern and asked line by line.
#[derive(Debug)]
pub struct Matcher {
    pattern: String,
    mode: Mode,
    case_insensitive: bool,
    engine: Engine,
}

impl View for Matcher {
    type V = Strategy;

    closed spec fn view(&self) -> Strategy {
        Strategy {
            pattern: self.pattern@,
            mode: self.mode,
            case_insensitive: self.case_insensitive,
        }
    }
}

impl Matcher {
    /// The engine holds the pattern in the form that the strategy asks for.
    #[verifier::type_invariant]
    spec fn ready(&self) -> bool {
        match self.mode {
            Mode::Literal => self.engine matches Engine::Substring(needle) && needle@ == needle_of(
                self.pattern@,
                self.case_insensitive,
            ),
            Mode::Regex => self.engine matches Engine::Expression(expression) && compiled(
                source_of(self.pattern@, self.case_insensitive),
            ) == Some(expression),
        }
    }

    /// A matcher for `pattern` as plain text. A literal pattern is never
    /// refused.
    pub fn literal(pattern: &str, case_insensitive: bool) -> (matcher: Matcher)
        ensures
            matcher@ == (Strategy { pattern: pattern@, mode: Mode::Literal, case_insensitive }),
    {
        let needle = if case_insensitive {
            pattern.to_lowercase()
        } else {
            pattern.to_owned()
        };
        Matcher {
            pattern: pattern.to_owned(),
            mode: Mode::Literal,
            case_insensitive,
            engine: Engine::Substring(needle),
        }
    }

    /// The source text handed to the compiler for `pattern`.
    pub fn regex_source(pattern: &str, case_insensitive: bool) -> (source: String)
        ensures
            source@ == source_of(pattern@, case_insensitive),
    {
        if case_insensitive {
            let mut source = String::from_str("(?i)");
            source.append(pattern);
            source
        } else {
            pattern.to_owned()
        }
    }

    /// The matcher for `pattern` as a regular expression, given what the
    /// compiler made of its source: the expression, or a refusal, which
    /// becomes a `PatternError` with the pattern as it was given.
    pub fn from_compiled(
        pattern: &str,
        case_insensitive: bool,
        built: Result<regex::Regex, regex::Error>,
    ) -> (made: Result<Matcher, PatternError>)
        requires
            built matches Ok(expression) ==> compiled(source_of(pattern@, case_insensitive))
                == Some(expression),
        ensures
            built is Ok <==> made is Ok,
            made matches Ok(matcher) ==> matcher@ == (Strategy {
                pattern: pattern@,
                mode: Mode::Regex,
                case_insensitive,
            }),
            made matches Err(error) ==> error.pattern@ == pattern@,
    {
        match built {
            Ok(expression) => Ok(
                Matcher {
                    pattern: pattern.to_owned(),
                    mode: Mode::Regex,
                    case_insensitive,
                    engine: Engine::Expression(expression),
                },
            ),
            Err(_) => Err(PatternError { pattern: pattern.to_owned() }),
        }
    }

    /// A matcher for `pattern` as a regular expression. The pattern is
    /// compiled here, once. There is a matcher exactly when the compiler
    /// accepts the source; a pattern that it refuses comes back in the
    /// error, as it was given.
    pub fn regular_expression(pattern: &str, case_insensitive: bool) -> (made: Result<
        Matcher,
        PatternError,
    >)
        ensures
            made is Ok <==> compiles(source_of(pattern@, case_insensitive)),
            made matches Ok(matcher) ==> matcher@ == (Strategy {
                pattern: pattern@,
                mode: Mode::Regex,
                case_insensitive,
            }),
            made matches Err(error) ==> error.pattern@ == pattern@,
    {
        let source = Matcher::regex_source(pattern, case_insensitive);
        let built = regex::Regex::new(source.as_str());
        Matcher::from_compiled(pattern, case_insensitive, built)
    }

    /// The matcher for a pattern, a mode and a case rule. In literal mode
    /// there always is one. In regex mode there is one exactly when the
    /// compiler accepts the source of the pattern.
    pub fn new(pattern: &str, mode: Mode, case_insensitive: bool) -> (made: Result<
        Matcher,
        PatternError,
    >)
        ensures
            made is Ok <==> well_formed(Strategy { pattern: pattern@, mode, case_insensitive }),
            made matches Ok(matcher) ==> matcher@ == (Strategy {
                pattern: pattern@,
                mode,
                case_insensitive,
            }),
            made matches Err(error) ==> error.pattern@ == pattern@,
    {
        match mode {
            Mode::Literal => Ok(Matcher::literal(pattern, case_insensitive)),
            Mode::Regex => Matcher::regular_expression(pattern, case_insensitive),
        }
    }

    /// Whether `line` matches.
    pub fn matches(&self, line: &str) -> (matched: bool)
        ensures
            matched == accepts(self@, line@),
    {
        proof {
            use_type_invariant(self);
        }
        match &self.engine {
            Engine::Substring(needle) => {
                if self.case_insensitive {
                    let lowered = line.to_lowercase();
                    occurs(needle.as_str(), lowered.as_str())
                } else {
                    occurs(needle.as_str(), line)
                }
            },
            Engine::Expression(expression) => expression.is_match(line),
        }
    }

    /// The pattern as it was given.
    pub fn pattern(&self) -> (pattern: &str)
        ensures
            pattern@ == self@.pattern,
    {
        self.pattern.as_str()
    }

    /// How the pattern is read.
    pub fn mode(&self) -> (mode: Mode)
        ensures
            mode == self@.mode,
    {
        self.mode
    }

    /// Whether case is ignored.
    pub fn case_insensitive(&self) -> (ignored: bool)
        ensures
            ignored == self@.case_insensitive,
    {
        self.case_insensitive
    }
}

} // verus!
