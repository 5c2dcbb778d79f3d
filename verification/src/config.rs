//! What a search is asked to do: the validated configuration, and how it is
//! read from the words of a command line.

use vstd::prelude::*;
use vstd::string::StringExecFns;
use crate::matcher::{Mode, Strategy};
use crate::text::same_text;

verus! {

/// The settings of one search.
pub struct Settings {
    pub pattern: Seq<char>,
    pub mode: Mode,
    pub case_insensitive: bool,
    pub source_path: Seq<char>,
    pub destination: Option<Seq<char>>,
}

/// What the matcher of a search with these settings looks for.
pub open spec fn strategy_of(settings: Settings) -> Strategy {
    Strategy {
        pattern: settings.pattern,
        mode: settings.mode,
        case_insensitive: settings.case_insensitive,
    }
}

/// Why a command line gives no configuration.
pub enum Fault {
    /// Fewer words than the program name, the mode, the pattern and the file.
    MissingArguments,
    /// The mode is neither `search` nor `regex`; the word that was given.
    InvalidMode(Seq<char>),
    /// The pattern is empty.
    EmptyPattern,
}

/// Why a command line gives no configuration.
#[derive(Debug, PartialEq, Eq)]
pub enum UsageError {
    /// Fewer words than the program name, the mode, the pattern and the file.
    MissingArguments,
    /// The mode is neither `search` nor `regex`; the word that was given.
    InvalidMode(String),
    /// The pattern is empty.
    EmptyPattern,
}

impl View for UsageError {
    type V = Fault;

    open spec fn view(&self) -> Fault {
        match self {
            UsageError::MissingArguments => Fault::MissingArguments,
            UsageError::InvalidMode(word) => Fault::InvalidMode(word@),
            UsageError::EmptyPattern => Fault::EmptyPattern,
        }
    }
}

/// The text shown for a usage error.
pub open spec fn usage_text(fault: Fault) -> Seq<char> {
    match fault {
        Fault::MissingArguments =>
            "Usage: cargo run -- <mode> <search_string> <file_path> [output_file] [--ignore-case]"@,
        Fault::InvalidMode(word) => "Invalid mode '"@ + word + "'. Use 'search' or 'regex'."@,
        Fault::EmptyPattern => "The search string is empty."@,
    }
}

impl UsageError {
    /// The text to show for this error.
    pub fn message(&self) -> (text: String)
        ensures
            text@ == usage_text(self@),
    {
        match self {
            UsageError::MissingArguments => String::from_str(
                "Usage: cargo run -- <mode> <search_string> <file_path> [output_file] [--ignore-case]",
            ),
            UsageError::InvalidMode(word) => {
                let mut text = String::from_str("Invalid mode '");
                text.append(word.as_str());
                text.append("'. Use 'search' or 'regex'.");
                text
            },
            UsageError::EmptyPattern => String::from_str("The search string is empty."),
        }
    }
}

/// The mode that a word of the command line names.
pub open spec fn mode_named(word: Seq<char>) -> Option<Mode> {
    if word == "search"@ {
        Some(Mode::Literal)
    } else if word == "regex"@ {
        Some(Mode::Regex)
    } else {
        None
    }
}

/// The mode that `word` names, if it names one.
pub fn parse_mode(word: &str) -> (mode: Option<Mode>)
    ensures
        mode == mode_named(word@),
{
    if same_text(word, "search") {
        Some(Mode::Literal)
    } else if same_text(word, "regex") {
        Some(Mode::Regex)
    } else {
        None
    }
}

/// The texts of the words of a command line.
pub open spec fn words_of(args: Seq<String>) -> Seq<Seq<char>> {
    Seq::new(args.len(), |i: int| args[i]@)
}

/// What a command line asks for. Its words are the program name, the mode,
/// the pattern and the file to search, in that place, and then options in
/// any order: the word `--ignore-case`, and the file to write to, which is
/// the first option that is not that word. Case is ignored when the word is
/// given or when `forced` says so.
pub open spec fn parsed(words: Seq<Seq<char>>, forced: bool) -> Result<Settings, Fault> {
    if words.len() < 4 {
        Err(Fault::MissingArguments)
    } else if mode_named(words[1]) is None {
        Err(Fault::InvalidMode(words[1]))
    } else if words[2].len() == 0 {
        Err(Fault::EmptyPattern)
    } else {
        let options = words.skip(4);
        let files = options.filter(|word: Seq<char>| word != "--ignore-case"@);
        Ok(
            Settings {
                pattern: words[2],
                mode: mode_named(words[1])->0,
                case_insensitive: forced || options.contains("--ignore-case"@),
                source_path: words[3],
                destination: if files.len() > 0 {
                    Some(files[0])
                } else {
                    None
                },
            },
        )
    }
}

/// The configuration of one search. Its pattern is never empty, and nothing
/// in it changes once it is made.
#[derive(Debug)]
pub struct SearchConfig {
    pattern: String,
    mode: Mode,
    case_insensitive: bool,
    source_path: String,
    destination: Option<String>,
}

impl View for SearchConfig {
    type V = Settings;

    closed spec fn view(&self) -> Settings {
        Settings {
            pattern: self.pattern@,
            mode: self.mode,
            case_insensitive: self.case_insensitive,
            source_path: self.source_path@,
            destination: match self.destination {
                Some(path) => Some(path@),
                None => None,
            },
        }
    }
}

impl SearchConfig {
    #[verifier::type_invariant]
    spec fn pattern_given(&self) -> bool {
        self.pattern@.len() > 0
    }

    /// The configuration with these settings, unless the pattern is empty.
    pub fn new(
        pattern: &str,
        mode: Mode,
        case_insensitive: bool,
        source_path: &str,
        destination: Option<&str>,
    ) -> (made: Result<SearchConfig, UsageError>)
        ensures
            pattern@.len() == 0 ==> made == Err::<SearchConfig, UsageError>(
                UsageError::EmptyPattern,
            ),
            pattern@.len() > 0 ==> made is Ok && made->Ok_0@ == (Settings {
                pattern: pattern@,
                mode,
                case_insensitive,
                source_path: source_path@,
                destination: match destination {
                    Some(path) => Some(path@),
                    None => None,
                },
            }),
    {
        if pattern.is_empty() {
            return Err(UsageError::EmptyPattern);
        }
        let destination = match destination {
            Some(path) => Some(path.to_owned()),
            None => None,
        };
        Ok(
            SearchConfig {
                pattern: pattern.to_owned(),
                mode,
                case_insensitive,
                source_path: source_path.to_owned(),
                destination,
            },
        )
    }

    /// The configuration that a command line asks for, or what is wrong with
    /// the command line.
    pub fn from_args(args: &Vec<String>, forced: bool) -> (made: Result<SearchConfig, UsageError>)
        ensures
            match parsed(words_of(args@), forced) {
                Ok(settings) => made is Ok && made->Ok_0@ == settings,
                Err(fault) => made is Err && made->Err_0@ == fault,
            },
    {
        let ghost words = words_of(args@);
        if args.len() < 4 {
            return Err(UsageError::MissingArguments);
        }
        let mode = match parse_mode(args[1].as_str()) {
            Some(mode) => mode,
            None => {
                return Err(UsageError::InvalidMode(args[1].clone()));
            },
        };
        if args[2].as_str().is_empty() {
            return Err(UsageError::EmptyPattern);
        }
        let ghost options = words.skip(4);
        let ghost is_file = |word: Seq<char>| word != "--ignore-case"@;
        let mut case_insensitive = forced;
        let mut destination: Option<&str> = None;
        let mut i: usize = 4;
        proof {
            reveal(Seq::filter);
            assert(options.take(0) =~= Seq::<Seq<char>>::empty());
        }
        while i < args.len()
            invariant
                4 <= i <= args.len(),
                words == words_of(args@),
                options == words.skip(4),
                is_file == |word: Seq<char>| word != "--ignore-case"@,
                case_insensitive == (forced || options.take(i - 4).contains("--ignore-case"@)),
                destination.is_some() == (options.take(i - 4).filter(is_file).len() > 0),
                destination matches Some(path) ==> path@ == options.take(i - 4).filter(is_file)[0],
            decreases args.len() - i,
        {
            let word = args[i].as_str();
            proof {
                reveal(Seq::filter);
                let before = options.take(i - 4);
                let upto = options.take(i - 4 + 1);
                assert(upto.drop_last() =~= before);
                assert(upto.last() == word@);
                assert(upto =~= before.push(word@));
                assert(upto.contains("--ignore-case"@) <==> before.contains("--ignore-case"@)
                    || word@ == "--ignore-case"@) by {
                    if before.contains("--ignore-case"@) {
                        let k = choose|k: int|
                            0 <= k < before.len() && before[k] == "--ignore-case"@;
                        assert(upto[k] == "--ignore-case"@);
                    }
                    if word@ == "--ignore-case"@ {
                        assert(upto[upto.len() - 1] == "--ignore-case"@);
                    }
                }
            }
            if same_text(word, "--ignore-case") {
                case_insensitive = true;
            } else if destination.is_none() {
                destination = Some(word);
            }
            i += 1;
        }
        proof {
            assert(options.take(args.len() - 4) =~= options);
        }
        let made = SearchConfig::new(
            args[2].as_str(),
            mode,
            case_insensitive,
            args[3].as_str(),
            destination,
        );
        made
    }

    /// The pattern to look for.
    pub fn pattern(&self) -> (pattern: &str)
        ensures
            pattern@ == self@.pattern,
            pattern@.len() > 0,
    {
        proof {
            use_type_invariant(self);
        }
        self.pattern.as_str()
    }

    /// How the pattern is read.
    pub fn mode(&self) -> (mode: Mode)
        ensures
            mode == self@.mode,
    {
        self.mode
    }

    /// Whether case is ignored.
    pub fn case_insensitive(&self) -> (ignored: bool)
        ensures
            ignored == self@.case_insensitive,
    {
        self.case_insensitive
    }

    /// The file to search.
    pub fn source_path(&self) -> (path: &str)
        ensures
            path@ == self@.source_path,
    {
        self.source_path.as_str()
    }

    /// The file to write the matches to; without one they go to the console.
    pub fn destination(&self) -> (path: Option<&str>)
        ensures
            match path {
                Some(path) => self@.destination == Some(path@),
                None => self@.destination is None,
            },
    {
        match &self.destination {
            Some(path) => Some(path.as_str()),
            None => None,
        }
    }
}

} // verus!
