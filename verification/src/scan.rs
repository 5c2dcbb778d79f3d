//! The scan: lines are numbered from 1 in the order they come, each is put to
//! the matcher, and the ones that match are reported as records.

use vstd::prelude::*;
use vstd::string::StringExecFns;
use crate::matcher::{
    accepts, compiles, expression_of, finds_match, source_of, Matcher, Mode, Strategy,
};
use crate::lines::{lines_of, texts_of, LineScanner};
use crate::text::{decimal_of, lowercase_of, occurs_in, push_decimal};

verus! {

/// A line that matched: its number in the text and what it holds.
pub struct Hit {
    pub number: nat,
    pub text: Seq<char>,
}

/// The lines with their numbers: the first line is line 1.
pub open spec fn numbered(lines: Seq<Seq<char>>) -> Seq<Hit> {
    Seq::new(lines.len(), |i: int| Hit { number: (i + 1) as nat, text: lines[i] })
}

/// What a search reports of `lines`: the lines that match, each with its
/// number, in the order of the text.
pub open spec fn report(strategy: Strategy, lines: Seq<Seq<char>>) -> Seq<Hit> {
    numbered(lines).filter(|hit: Hit| accepts(strategy, hit.text))
}

/// The record written for a hit: `Line`, the number, a colon, the text of the
/// line, and a line feed to end the record.
pub open spec fn record_of(hit: Hit) -> Seq<char> {
    "Line "@ + decimal_of(hit.number) + ": "@ + hit.text + "\n"@
}

/// A line that matched, as the scan hands it out.
#[derive(Debug, PartialEq, Eq)]
pub struct Match {
    /// The number of the line, counted from 1.
    pub number: usize,
    /// The line, without its terminator.
    pub text: String,
}

impl View for Match {
    type V = Hit;

    open spec fn view(&self) -> Hit {
        Hit { number: self.number as nat, text: self.text@ }
    }
}

/// The hits that a vector of matches stands for.
pub open spec fn hits_of(matches: Seq<Match>) -> Seq<Hit> {
    Seq::new(matches.len(), |i: int| matches[i]@)
}

impl Match {
    /// The record to write for this match, line feed included.
    pub fn record(&self) -> (record: String)
        ensures
            record@ == record_of(self@),
    {
        let mut record = String::from_str("Line ");
        push_decimal(&mut record, self.number);
        record.append(": ");
        record.append(self.text.as_str());
        record.append("\n");
        record
    }
}

/// What is known when a scan is over.
#[derive(Debug, Clone, Copy, PartialEq, Eq, Structural)]
pub struct ScanResult {
    /// Whether at least one line matched.
    pub any_match_found: bool,
}

/// How far a scan has come.
struct Progress {
    seen: usize,
    any_match_found: bool,
    lines: Ghost<Seq<Seq<char>>>,
}

/// A scan in progress. It takes the lines one at a time, in order, and keeps
/// count of them.
pub struct Scan {
    matcher: Matcher,
    progress: Progress,
}

impl Scan {
    /// The count and the flag agree with the lines taken so far.
    #[verifier::type_invariant]
    spec fn consistent(&self) -> bool {
        &&& self.progress.seen == self.progress.lines@.len()
        &&& self.progress.any_match_found == (report(self.matcher@, self.progress.lines@).len()
            > 0)
    }

    /// What the scan looks for.
    pub closed spec fn strategy(&self) -> Strategy {
        self.matcher@
    }

    /// The lines taken so far, in order.
    pub closed spec fn lines(&self) -> Seq<Seq<char>> {
        self.progress.lines@
    }

    /// A scan that has taken no line yet.
    pub fn new(matcher: Matcher) -> (scan: Scan)
        ensures
            scan.strategy() == matcher@,
            scan.lines() == Seq::<Seq<char>>::empty(),
    {
        proof {
            lemma_report_empty(matcher@);
        }
        Scan {
            matcher,
            progress: Progress { seen: 0, any_match_found: false, lines: Ghost(Seq::empty()) },
        }
    }

    /// The number of lines taken so far.
    pub fn lines_seen(&self) -> (seen: usize)
        ensures
            seen == self.lines().len(),
    {
        proof {
            use_type_invariant(self);
        }
        self.progress.seen
    }

    /// Takes the next line. Where it matches, the result is the match to
    /// report: the line under its number, which is one more than the number
    /// of lines taken before.
    pub fn feed(&mut self, line: &str) -> (found: Option<Match>)
        requires
            old(self).lines().len() < usize::MAX,
        ensures
            final(self).strategy() == old(self).strategy(),
            final(self).lines() == old(self).lines().push(line@),
            report(final(self).strategy(), final(self).lines()) == match found {
                Some(hit) => report(old(self).strategy(), old(self).lines()).push(hit@),
                None => report(old(self).strategy(), old(self).lines()),
            },
            found is Some <==> accepts(old(self).strategy(), line@),
            found matches Some(hit) ==> hit@ == (Hit {
                number: old(self).lines().len() + 1,
                text: line@,
            }),
    {
        proof {
            use_type_invariant(&*self);
            lemma_report_push(self.matcher@, self.progress.lines@, line@);
        }
        let matched = self.matcher.matches(line);
        let number = self.progress.seen + 1;
        self.progress = Progress {
            seen: number,
            any_match_found: self.progress.any_match_found || matched,
            lines: Ghost(self.progress.lines@.push(line@)),
        };
        if matched {
            Some(Match { number, text: line.to_owned() })
        } else {
            None
        }
    }

    /// Ends the scan and says whether any of its lines matched.
    pub fn finish(self) -> (result: ScanResult)
        ensures
            result.any_match_found == (report(self.strategy(), self.lines()).len() > 0),
    {
        proof {
            use_type_invariant(&self);
        }
        ScanResult { any_match_found: self.progress.any_match_found }
    }
}

/// Nothing is reported of no lines.
pub proof fn lemma_report_empty(strategy: Strategy)
    ensures
        report(strategy, Seq::empty()) == Seq::<Hit>::empty(),
{
    reveal(Seq::filter);
    assert(numbered(Seq::empty()) =~= Seq::<Hit>::empty());
}

/// One more line adds its hit to the end of the report if it matches, and
/// leaves the report as it was if it does not.
pub proof fn lemma_report_push(strategy: Strategy, lines: Seq<Seq<char>>, line: Seq<char>)
    ensures
        report(strategy, lines.push(line)) == if accepts(strategy, line) {
            report(strategy, lines).push(Hit { number: lines.len() + 1, text: line })
        } else {
            report(strategy, lines)
        },
{
    reveal(Seq::filter);
    let all = numbered(lines.push(line));
    assert(all.drop_last() =~= numbered(lines));
    assert(all.last() == Hit { number: lines.len() + 1, text: line });
}

/// A hit is reported exactly when it names a line of the text by its number,
/// counted from 1, holds that line, and the line matches.
pub proof fn lemma_reported(strategy: Strategy, lines: Seq<Seq<char>>, hit: Hit)
    ensures
        report(strategy, lines).contains(hit) <==> {
            &&& 1 <= hit.number <= lines.len()
            &&& lines[hit.number - 1] == hit.text
            &&& accepts(strategy, hit.text)
        },
    decreases lines.len(),
{
    if lines.len() == 0 {
        lemma_report_empty(strategy);
        assert(lines =~= Seq::empty());
    } else {
        let before = lines.drop_last();
        let line = lines.last();
        let last = Hit { number: lines.len(), text: line };
        assert(lines =~= before.push(line));
        lemma_report_push(strategy, before, line);
        lemma_reported(strategy, before, hit);
        let earlier = report(strategy, before);
        if accepts(strategy, line) {
            let all = earlier.push(last);
            assert(all.last() == last);
            if earlier.contains(hit) {
                let i = choose|i: int| 0 <= i < earlier.len() && earlier[i] == hit;
                assert(all[i] == hit);
            }
            if all.contains(hit) {
                let i = choose|i: int| 0 <= i < all.len() && all[i] == hit;
                if i < earlier.len() {
                    assert(earlier[i] == hit);
                }
            }
        }
    }
}

/// A literal search with regard to case reports a line exactly when the
/// pattern occurs in it as a contiguous part.
pub proof fn lemma_literal_report(pattern: Seq<char>, lines: Seq<Seq<char>>, k: int)
    requires
        0 <= k < lines.len(),
    ensures
        report(
            Strategy { pattern, mode: Mode::Literal, case_insensitive: false },
            lines,
        ).contains(Hit { number: (k + 1) as nat, text: lines[k] }) <==> occurs_in(pattern, lines[k]),
{
    let strategy = Strategy { pattern, mode: Mode::Literal, case_insensitive: false };
    lemma_reported(strategy, lines, Hit { number: (k + 1) as nat, text: lines[k] });
}

/// A search by regular expression reports a line exactly when the compiled
/// expression finds a match somewhere in it.
pub proof fn lemma_regex_report(
    pattern: Seq<char>,
    case_insensitive: bool,
    lines: Seq<Seq<char>>,
    k: int,
)
    requires
        compiles(source_of(pattern, case_insensitive)),
        0 <= k < lines.len(),
    ensures
        report(Strategy { pattern, mode: Mode::Regex, case_insensitive }, lines).contains(
            Hit { number: (k + 1) as nat, text: lines[k] },
        ) <==> finds_match(expression_of(source_of(pattern, case_insensitive)), lines[k]),
{
    let strategy = Strategy { pattern, mode: Mode::Regex, case_insensitive };
    lemma_reported(strategy, lines, Hit { number: (k + 1) as nat, text: lines[k] });
}

/// The report keeps the order of the text: the numbers of its hits grow
/// from each hit to the next, and none is beyond the last line.
pub proof fn lemma_report_in_order(strategy: Strategy, lines: Seq<Seq<char>>)
    ensures
        forall|i: int, j: int|
            0 <= i < j < report(strategy, lines).len() ==> report(strategy, lines)[i].number
                < report(strategy, lines)[j].number,
        forall|i: int|
            0 <= i < report(strategy, lines).len() ==> 1 <= (#[trigger] report(
                strategy,
                lines,
            )[i]).number <= lines.len(),
    decreases lines.len(),
{
    if lines.len() == 0 {
        lemma_report_empty(strategy);
        assert(lines =~= Seq::empty());
    } else {
        let before = lines.drop_last();
        assert(lines =~= before.push(lines.last()));
        lemma_report_push(strategy, before, lines.last());
        lemma_report_in_order(strategy, before);
    }
}

/// Each hit of the report holds the line that stands at its number in the
/// text, and that line matches.
pub proof fn lemma_report_holds_lines(strategy: Strategy, lines: Seq<Seq<char>>, i: int)
    requires
        0 <= i < report(strategy, lines).len(),
    ensures
        1 <= report(strategy, lines)[i].number <= lines.len(),
        report(strategy, lines)[i].text == lines[report(strategy, lines)[i].number - 1],
        accepts(strategy, report(strategy, lines)[i].text),
{
    let hit = report(strategy, lines)[i];
    assert(report(strategy, lines).contains(hit));
    lemma_reported(strategy, lines, hit);
}

/// Nothing is reported exactly when no line matches.
pub proof fn lemma_nothing_reported(strategy: Strategy, lines: Seq<Seq<char>>)
    ensures
        report(strategy, lines).len() == 0 <==> forall|k: int|
            0 <= k < lines.len() ==> !accepts(strategy, #[trigger] lines[k]),
{
    let found = report(strategy, lines);
    if found.len() > 0 {
        lemma_report_holds_lines(strategy, lines, 0);
        assert(accepts(strategy, lines[found[0].number - 1]));
    }
    if exists|k: int| 0 <= k < lines.len() && accepts(strategy, #[trigger] lines[k]) {
        let k = choose|k: int| 0 <= k < lines.len() && accepts(strategy, #[trigger] lines[k]);
        let hit = Hit { number: (k + 1) as nat, text: lines[k] };
        lemma_reported(strategy, lines, hit);
        assert(found.contains(hit));
    }
}

/// What a search reports is decided by what it looks for and by the lines of
/// the text: two runs with the same strategy over the same text report the
/// same hits, and so write the same records.
pub proof fn lemma_same_search_same_report(
    first: Seq<Match>,
    second: Seq<Match>,
    strategy: Strategy,
    text: Seq<char>,
)
    requires
        hits_of(first) == report(strategy, lines_of(text)),
        hits_of(second) == report(strategy, lines_of(text)),
    ensures
        first.len() == second.len(),
        forall|i: int|
            0 <= i < first.len() ==> record_of(#[trigger] first[i]@) == record_of(second[i]@),
{
    assert(hits_of(first).len() == first.len());
    assert(hits_of(second).len() == second.len());
    assert forall|i: int| 0 <= i < first.len() implies record_of(#[trigger] first[i]@)
        == record_of(second[i]@) by {
        assert(hits_of(first)[i] == first[i]@);
        assert(hits_of(second)[i] == second[i]@);
    }
}

/// The lines among `lines` that match, in their order.
pub open spec fn selected(strategy: Strategy, lines: Seq<Seq<char>>) -> Seq<Seq<char>> {
    lines.filter(|line: Seq<char>| accepts(strategy, line))
}

/// The texts of a sequence of hits, in order.
pub open spec fn texts_reported(hits: Seq<Hit>) -> Seq<Seq<char>> {
    Seq::new(hits.len(), |i: int| hits[i].text)
}

/// The numbers of a sequence of hits, in order.
pub open spec fn numbers_reported(hits: Seq<Hit>) -> Seq<nat> {
    Seq::new(hits.len(), |i: int| hits[i].number)
}

/// The report holds the lines that match and no others: without their
/// numbers, its hits are the matching lines in their order.
pub proof fn lemma_report_texts(strategy: Strategy, lines: Seq<Seq<char>>)
    ensures
        texts_reported(report(strategy, lines)) == selected(strategy, lines),
    decreases lines.len(),
{
    reveal(Seq::filter);
    if lines.len() == 0 {
        lemma_report_empty(strategy);
        assert(lines =~= Seq::empty());
        assert(texts_reported(report(strategy, lines)) =~= selected(strategy, lines));
    } else {
        let before = lines.drop_last();
        let line = lines.last();
        assert(lines =~= before.push(line));
        lemma_report_push(strategy, before, line);
        lemma_report_texts(strategy, before);
        let earlier = report(strategy, before);
        if accepts(strategy, line) {
            assert(texts_reported(earlier.push(Hit { number: before.len() + 1, text: line }))
                =~= texts_reported(earlier).push(line));
        }
    }
}

/// Where case is ignored, a literal search reports lines by their lowercase
/// forms alone: for patterns with one lowercase form, over texts whose
/// lines have the same lowercase forms line by line, the same line numbers
/// are reported.
pub proof fn lemma_case_ignored_report(
    pattern: Seq<char>,
    other_pattern: Seq<char>,
    lines: Seq<Seq<char>>,
    other_lines: Seq<Seq<char>>,
)
    requires
        lowercase_of(pattern) == lowercase_of(other_pattern),
        lines.len() == other_lines.len(),
        forall|k: int|
            0 <= k < lines.len() ==> lowercase_of(#[trigger] lines[k]) == lowercase_of(
                other_lines[k],
            ),
    ensures
        numbers_reported(
            report(Strategy { pattern, mode: Mode::Literal, case_insensitive: true }, lines),
        ) == numbers_reported(
            report(
                Strategy { pattern: other_pattern, mode: Mode::Literal, case_insensitive: true },
                other_lines,
            ),
        ),
    decreases lines.len(),
{
    let strategy = Strategy { pattern, mode: Mode::Literal, case_insensitive: true };
    let other = Strategy { pattern: other_pattern, mode: Mode::Literal, case_insensitive: true };
    if lines.len() == 0 {
        lemma_report_empty(strategy);
        lemma_report_empty(other);
        assert(lines =~= Seq::empty());
        assert(other_lines =~= Seq::empty());
    } else {
        let before = lines.drop_last();
        let other_before = other_lines.drop_last();
        assert(lines =~= before.push(lines.last()));
        assert(other_lines =~= other_before.push(other_lines.last()));
        assert forall|k: int| 0 <= k < before.len() implies lowercase_of(#[trigger] before[k])
            == lowercase_of(other_before[k]) by {
            assert(before[k] == lines[k]);
            assert(other_before[k] == other_lines[k]);
        }
        lemma_case_ignored_report(pattern, other_pattern, before, other_before);
        lemma_report_push(strategy, before, lines.last());
        lemma_report_push(other, other_before, other_lines.last());
        assert(lowercase_of(lines[lines.len() - 1]) == lowercase_of(
            other_lines[lines.len() - 1],
        ));
        let earlier = report(strategy, before);
        let other_earlier = report(other, other_before);
        if accepts(strategy, lines.last()) {
            let hit = Hit { number: before.len() + 1, text: lines.last() };
            let other_hit = Hit { number: other_before.len() + 1, text: other_lines.last() };
            assert(numbers_reported(earlier.push(hit)) =~= numbers_reported(earlier).push(
                hit.number,
            ));
            assert(numbers_reported(other_earlier.push(other_hit)) =~= numbers_reported(
                other_earlier,
            ).push(other_hit.number));
        }
    }
}

/// The lines of `text` that match, as slices of it, in the order of the
/// text.
pub fn matching_lines<'a>(matcher: &Matcher, text: &'a str) -> (found: Vec<&'a str>)
    ensures
        texts_of(found@) == selected(matcher@, lines_of(text@)),
{
    let ghost all = lines_of(text@);
    let mut found: Vec<&'a str> = Vec::new();
    let mut scanner = LineScanner::new(text);
    proof {
        reveal(Seq::filter);
        assert(all.take(0) =~= Seq::<Seq<char>>::empty());
        assert(all.skip(0) =~= all);
        assert(texts_of(found@) =~= Seq::<Seq<char>>::empty());
    }
    loop
        invariant
            all == lines_of(text@),
            scanner.taken() <= all.len(),
            scanner.pending() == all.skip(scanner.taken() as int),
            texts_of(found@) == selected(matcher@, all.take(scanner.taken() as int)),
        decreases scanner.pending().len(),
    {
        let ghost seen = scanner.taken() as int;
        let ghost earlier = texts_of(found@);
        match scanner.next_line() {
            Some(line) => {
                proof {
                    reveal(Seq::filter);
                    let upto = all.take(seen + 1);
                    assert(all.skip(seen)[0] == all[seen]);
                    assert(upto.drop_last() =~= all.take(seen));
                    assert(upto.last() == line.text@);
                    assert(all.skip(seen).drop_first() =~= all.skip(seen + 1));
                }
                if matcher.matches(line.text) {
                    found.push(line.text);
                    assert(texts_of(found@) =~= earlier.push(line.text@));
                }
            },
            None => {
                proof {
                    assert(all.take(seen) =~= all);
                }
                return found;
            },
        }
    }
}

/// Searches the lines of `text` and returns the matches in the order of the
/// text, each under the number of its line.
pub fn search_text(matcher: &Matcher, text: &str) -> (found: Vec<Match>)
    ensures
        hits_of(found@) == report(matcher@, lines_of(text@)),
{
    let ghost all = lines_of(text@);
    let mut found: Vec<Match> = Vec::new();
    let mut scanner = LineScanner::new(text);
    proof {
        lemma_report_empty(matcher@);
        assert(all.take(0) =~= Seq::<Seq<char>>::empty());
        assert(all.skip(0) =~= all);
        assert(hits_of(found@) =~= Seq::<Hit>::empty());
    }
    loop
        invariant
            all == lines_of(text@),
            scanner.taken() <= all.len(),
            scanner.pending() == all.skip(scanner.taken() as int),
            hits_of(found@) == report(matcher@, all.take(scanner.taken() as int)),
        decreases scanner.pending().len(),
    {
        let ghost seen = scanner.taken() as int;
        let ghost earlier = hits_of(found@);
        match scanner.next_line() {
            Some(line) => {
                proof {
                    assert(all.skip(seen)[0] == all[seen]);
                    lemma_report_push(matcher@, all.take(seen), line.text@);
                    assert(all.take(seen + 1) =~= all.take(seen).push(line.text@));
                    assert(all.skip(seen).drop_first() =~= all.skip(seen + 1));
                }
                if matcher.matches(line.text) {
                    found.push(Match { number: line.number, text: line.text.to_owned() });
                    assert(hits_of(found@) =~= earlier.push(
                        Hit { number: line.number as nat, text: line.text@ },
                    ));
                }
            },
            None => {
                proof {
                    assert(all.take(seen) =~= all);
                }
                return found;
            },
        }
    }
}

} // verus!
