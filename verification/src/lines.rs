//! The lines of a text: what they are, and how a text is cut into them. The
//! cutting works on the bytes of the text, so that each line is a slice of
//! it; that the slices hold the lines is shown through the encoding.

use vstd::prelude::*;
use vstd::string::StringSliceAdditionalSpecFns;
use vstd::utf8::*;

verus! {

/// The position of the first line feed in `text`, or the length of `text`
/// where it holds none.
pub open spec fn line_end(text: Seq<char>) -> int
    decreases text.len(),
{
    if text.len() == 0 || text[0] == '\n' {
        0
    } else {
        1 + line_end(text.drop_first())
    }
}

/// `line` without the carriage return that ends it, if one does.
pub open spec fn without_return(line: Seq<char>) -> Seq<char> {
    if line.len() > 0 && line.last() == '\r' {
        line.drop_last()
    } else {
        line
    }
}

/// The lines of `text`, in order and without their terminators. A line ends
/// at a line feed; a carriage return just before that line feed belongs to
/// the terminator. The last line needs no terminator, and a text that ends
/// with one has no empty line after it.
pub open spec fn lines_of(text: Seq<char>) -> Seq<Seq<char>>
    decreases text.len(),
{
    let end = line_end(text);
    if text.len() == 0 {
        Seq::empty()
    } else if 0 <= end < text.len() {
        seq![without_return(text.take(end))] + lines_of(text.skip(end + 1))
    } else {
        seq![text]
    }
}

/// The texts that a vector of string slices holds.
pub open spec fn texts_of(lines: Seq<&str>) -> Seq<Seq<char>> {
    Seq::new(lines.len(), |i: int| lines[i]@)
}


/// The byte of a line feed.
const LINE_FEED: u8 = 10;

/// The byte of a carriage return.
const CARRIAGE_RETURN: u8 = 13;

/// A character that is encoded as one byte is encoded as the byte of its
/// own number.
proof fn lemma_single_byte(ch: char)
    requires
        ch as u32 <= 0x7f,
    ensures
        encode_scalar(ch as u32) == seq![ch as u8],
{
    let scalar = ch as u32;
    assert(scalar <= 0x7f ==> scalar & 0x7f == scalar) by (bit_vector);
}

/// A character below 128 that is not the character of a byte has another
/// number than that byte.
proof fn lemma_unlike_byte(ch: char, byte: u8)
    requires
        ch as u32 <= 0x7f,
        ch as u8 != byte,
    ensures
        ch as u32 != byte as u32,
{
}

/// The encoding of a character of more than one byte holds no byte below
/// 128.
proof fn lemma_wide_bytes(ch: char, i: int)
    requires
        ch as u32 > 0x7f,
        0 <= i < encode_scalar(ch as u32).len(),
    ensures
        encode_scalar(ch as u32)[i] >= 0x80,
{
    let scalar = ch as u32;
    assert(0xC0 | ((scalar >> 6) & 0x1F) as u8 >= 0x80) by (bit_vector);
    assert(0xE0 | ((scalar >> 12) & 0x0F) as u8 >= 0x80) by (bit_vector);
    assert(0xF0 | ((scalar >> 18) & 0x7) as u8 >= 0x80) by (bit_vector);
    assert(0x80 | (scalar & 0x3F) as u8 >= 0x80) by (bit_vector);
    assert(0x80 | ((scalar >> 6) & 0x3F) as u8 >= 0x80) by (bit_vector);
    assert(0x80 | ((scalar >> 12) & 0x3F) as u8 >= 0x80) by (bit_vector);
}

/// A text holds the character of a byte below 128 exactly where its
/// encoding holds that byte: if no byte of the encoding is `byte`, no
/// character of the text is its character.
proof fn lemma_absent_byte(chars: Seq<char>, byte: u8)
    requires
        byte < 0x80,
        forall|i: int| 0 <= i < encode_utf8(chars).len() ==> encode_utf8(chars)[i] != byte,
    ensures
        forall|k: int| 0 <= k < chars.len() ==> chars[k] as u32 != byte as u32,
    decreases chars.len(),
{
    if chars.len() > 0 {
        let first = encode_scalar(chars[0] as u32);
        let rest = encode_utf8(chars.drop_first());
        assert(encode_utf8(chars) == first + rest);
        if chars[0] as u32 <= 0x7f {
            lemma_single_byte(chars[0]);
            assert((first + rest)[0] == first[0]);
            assert(encode_utf8(chars)[0] == chars[0] as u8);
            lemma_unlike_byte(chars[0], byte);
        }
        assert forall|i: int| 0 <= i < rest.len() implies rest[i] != byte by {
            assert((first + rest)[first.len() + i] == rest[i]);
        }
        lemma_absent_byte(chars.drop_first(), byte);
        assert(chars[0] as u32 != byte as u32);
        assert forall|k: int| 0 <= k < chars.len() implies chars[k] as u32 != byte as u32 by {
            if k > 0 {
                assert(chars.drop_first()[k - 1] == chars[k]);
                assert(chars.drop_first()[k - 1] as u32 != byte as u32);
            }
        }
    }
}

/// The encoding of a text that ends with a character of one byte ends with
/// that byte; and a text whose encoding ends with a byte below 128 ends
/// with the character of that byte.
proof fn lemma_last_byte(chars: Seq<char>)
    requires
        chars.len() > 0,
    ensures
        encode_utf8(chars).len() > 0,
        chars.last() as u32 <= 0x7f ==> encode_utf8(chars).last() == chars.last() as u8,
        chars.last() as u32 > 0x7f ==> encode_utf8(chars).last() >= 0x80,
    decreases chars.len(),
{
    let first = encode_scalar(chars[0] as u32);
    let rest = encode_utf8(chars.drop_first());
    assert(encode_utf8(chars) == first + rest);
    if chars.len() == 1 {
        assert(rest.len() == 0);
        assert(first + rest =~= first);
        if chars[0] as u32 <= 0x7f {
            lemma_single_byte(chars[0]);
        } else {
            lemma_wide_bytes(chars[0], first.len() - 1);
        }
    } else {
        lemma_last_byte(chars.drop_first());
        assert(chars.drop_first().last() == chars.last());
        assert((first + rest).last() == rest.last());
    }
}

/// A text that holds no line feed ends where its first line ends.
proof fn lemma_line_without_feed(text: Seq<char>)
    requires
        forall|k: int| 0 <= k < text.len() ==> text[k] != '\n',
    ensures
        line_end(text) == text.len(),
    decreases text.len(),
{
    if text.len() > 0 {
        assert forall|k: int| 0 <= k < text.drop_first().len() implies text.drop_first()[k]
            != '\n' by {
            assert(text.drop_first()[k] == text[k + 1]);
        }
        lemma_line_without_feed(text.drop_first());
    }
}

/// The first line of a text ends at its first line feed.
proof fn lemma_line_before_feed(line: Seq<char>, rest: Seq<char>)
    requires
        forall|k: int| 0 <= k < line.len() ==> line[k] != '\n',
    ensures
        line_end(line + seq!['\n'] + rest) == line.len(),
    decreases line.len(),
{
    let text = line + seq!['\n'] + rest;
    if line.len() == 0 {
        assert(text[0] == '\n');
    } else {
        assert(text[0] == line[0]);
        assert(text.drop_first() =~= line.drop_first() + seq!['\n'] + rest);
        assert forall|k: int| 0 <= k < line.drop_first().len() implies line.drop_first()[k]
            != '\n' by {
            assert(line.drop_first()[k] == line[k + 1]);
        }
        lemma_line_before_feed(line.drop_first(), rest);
    }
}

/// The text of a string slice is what its bytes decode to.
proof fn lemma_text_of_bytes(text: &str)
    ensures
        valid_utf8(text.spec_bytes()),
        text@ == decode_utf8(text.spec_bytes()),
{
    encode_utf8_valid_utf8(text@);
    encode_utf8_decode_utf8(text@);
}

/// Cuts `text` in two at the byte position `mid`, which lies between two of
/// its characters.
fn cut<'a>(text: &'a str, mid: usize) -> (parts: (&'a str, &'a str))
    requires
        is_char_boundary(text.spec_bytes(), mid as int),
    ensures
        text@ == parts.0@ + parts.1@,
        parts.0.spec_bytes() == text.spec_bytes().subrange(0, mid as int),
        parts.1.spec_bytes() == text.spec_bytes().subrange(
            mid as int,
            text.spec_bytes().len() as int,
        ),
{
    let parts = text.split_at(mid);
    proof {
        lemma_text_of_bytes(text);
        lemma_text_of_bytes(parts.0);
        lemma_text_of_bytes(parts.1);
        decode_utf8_split(text.spec_bytes(), mid as int);
    }
    parts
}

/// The text of a slice that is one byte below 128 is the character of that
/// byte.
proof fn lemma_one_character(text: &str, ch: char)
    requires
        ch as u32 <= 0x7f,
        text.spec_bytes() == seq![ch as u8],
    ensures
        text@ == seq![ch],
{
    lemma_single_byte(ch);
    let one = seq![ch];
    assert(encode_utf8(one.drop_first()) == Seq::<u8>::empty());
    assert(encode_utf8(one) =~= seq![ch as u8]);
    encode_utf8_decode_utf8(one);
    lemma_text_of_bytes(text);
}

/// `line` without the carriage return that ends it, if one does.
fn strip_return<'a>(line: &'a str) -> (stripped: &'a str)
    ensures
        stripped@ == without_return(line@),
{
    let bytes = line.as_bytes();
    let len = bytes.len();
    proof {
        lemma_text_of_bytes(line);
        if line@.len() > 0 {
            lemma_last_byte(line@);
        }
    }
    if len > 0 && bytes[len - 1] == CARRIAGE_RETURN {
        proof {
            is_char_boundary_iff_not_is_continuation_byte(line.spec_bytes(), len - 1);
        }
        let parts = cut(line, len - 1);
        proof {
            assert(parts.1.spec_bytes() =~= seq![CARRIAGE_RETURN]);
            lemma_one_character(parts.1, '\r');
            assert(parts.0@ =~= line@.drop_last());
        }
        parts.0
    } else {
        line
    }
}

/// Cuts the first line off a text that is not empty: the line without its
/// terminator, and the text behind the terminator.
fn first_line<'a>(text: &'a str) -> (cut: (&'a str, &'a str))
    requires
        text@.len() > 0,
    ensures
        lines_of(text@) == seq![cut.0@] + lines_of(cut.1@),
        cut.1.spec_bytes().len() < text.spec_bytes().len(),
{
    let bytes = text.as_bytes();
    let mut end: usize = 0;
    while end < bytes.len() && bytes[end] != LINE_FEED
        invariant
            end <= bytes.len(),
            forall|i: int| 0 <= i < end ==> bytes@[i] != LINE_FEED,
        decreases bytes.len() - end,
    {
        end += 1;
    }
    proof {
        lemma_text_of_bytes(text);
    }
    if end == bytes.len() {
        proof {
            lemma_absent_byte(text@, LINE_FEED);
            lemma_line_without_feed(text@);
            is_char_boundary_start_end_of_seq(text.spec_bytes());
        }
        let parts = cut(text, end);
        proof {
            lemma_text_of_bytes(parts.1);
            assert(parts.1@ =~= Seq::<char>::empty());
            assert(text@ =~= parts.0@);
            assert(seq![text@] + lines_of(parts.1@) =~= seq![text@]);
        }
        return (text, parts.1);
    }
    proof {
        is_char_boundary_iff_not_is_continuation_byte(text.spec_bytes(), end as int);
    }
    let parts = cut(text, end);
    proof {
        lemma_text_of_bytes(parts.1);
        assert(parts.1.spec_bytes()[0] == LINE_FEED);
        reveal_with_fuel(is_char_boundary, 2);
        assert(is_char_boundary(parts.1.spec_bytes(), 1));
    }
    let ends = cut(parts.1, 1);
    let line = strip_return(parts.0);
    proof {
        assert(ends.0.spec_bytes() =~= seq![LINE_FEED]);
        lemma_one_character(ends.0, '\n');
        lemma_text_of_bytes(parts.0);
        assert forall|i: int| 0 <= i < parts.0.spec_bytes().len() implies parts.0.spec_bytes()[i]
            != LINE_FEED by {
            assert(parts.0.spec_bytes()[i] == bytes@[i]);
        }
        lemma_absent_byte(parts.0@, LINE_FEED);
        lemma_line_before_feed(parts.0@, ends.1@);
        assert(text@ =~= parts.0@ + seq!['\n'] + ends.1@);
        assert(text@.take(parts.0@.len() as int) =~= parts.0@);
        assert(text@.skip(parts.0@.len() as int + 1) =~= ends.1@);
    }
    (line, ends.1)
}

/// A line of a text: its number, counted from 1, and what it holds, without
/// its terminator.
#[derive(Debug, PartialEq, Eq)]
pub struct Line<'a> {
    pub number: usize,
    pub text: &'a str,
}

/// Gives out the lines of a text one at a time, from first to last, each
/// under its number. It goes through the text once and cuts a line only
/// when it is asked for.
pub struct LineScanner<'a> {
    rest: &'a str,
    taken: usize,
}

impl<'a> LineScanner<'a> {
    /// Every line takes at least one byte of the text, so the lines still to
    /// come all have numbers.
    #[verifier::type_invariant]
    spec fn numbered(&self) -> bool {
        self.taken + self.rest.spec_bytes().len() <= usize::MAX
    }

    /// The lines still to come, in order.
    pub closed spec fn pending(&self) -> Seq<Seq<char>> {
        lines_of(self.rest@)
    }

    /// The number of lines given out so far.
    pub closed spec fn taken(&self) -> nat {
        self.taken as nat
    }

    /// A scanner at the start of `text`.
    pub fn new(text: &'a str) -> (scanner: LineScanner<'a>)
        ensures
            scanner.pending() == lines_of(text@),
            scanner.taken() == 0,
    {
        let length = text.as_bytes().len();
        assert(text.spec_bytes().len() == length);
        LineScanner { rest: text, taken: 0 }
    }

    /// The next line, or nothing at the end of the text.
    pub fn next_line(&mut self) -> (next: Option<Line<'a>>)
        ensures
            match next {
                Some(line) => {
                    &&& old(self).pending().len() > 0
                    &&& line.text@ == old(self).pending()[0]
                    &&& line.number == old(self).taken() + 1
                    &&& final(self).pending() == old(self).pending().drop_first()
                    &&& final(self).taken() == old(self).taken() + 1
                },
                None => {
                    &&& old(self).pending().len() == 0
                    &&& final(self).pending() == old(self).pending()
                    &&& final(self).taken() == old(self).taken()
                },
            },
    {
        proof {
            use_type_invariant(&*self);
        }
        if self.rest.is_empty() {
            return None;
        }
        let cut = first_line(self.rest);
        proof {
            assert((seq![cut.0@] + lines_of(cut.1@)).drop_first() =~= lines_of(cut.1@));
        }
        self.rest = cut.1;
        self.taken = self.taken + 1;
        Some(Line { number: self.taken, text: cut.0 })
    }
}

} // verus!
