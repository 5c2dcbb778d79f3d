//! Text as sequences of characters: where a pattern occurs in a text, the
//! lowercase form of a text, and the decimal numeral of a number. Texts are
//! compared and searched byte by byte; that this finds what the characters
//! say is shown through the encoding.

use vstd::prelude::*;
use vstd::string::StringSliceAdditionalSpecFns;
use vstd::utf8::*;

verus! {

/// `pattern` stands in `text` at position `at`, character for character.
pub open spec fn occurs_at(pattern: Seq<char>, text: Seq<char>, at: int) -> bool {
    &&& 0 <= at
    &&& at + pattern.len() <= text.len()
    &&& text.subrange(at, at + pattern.len()) == pattern
}

/// `pattern` is a contiguous part of `text`. The empty pattern is part of
/// every text.
pub open spec fn occurs_in(pattern: Seq<char>, text: Seq<char>) -> bool {
    exists|at: int| occurs_at(pattern, text, at)
}

/// The lowercase form of a text: what `str::to_lowercase` makes of it.
pub uninterp spec fn lowercase_of(text: Seq<char>) -> Seq<char>;

/// `str::to_lowercase` maps a text to its lowercase form by the Unicode
/// tables built into the standard library. The mapping is fixed and looks at
/// nothing but the text, so its result is named rather than spelled out.
pub assume_specification[ str::to_lowercase ](text: &str) -> (lowered: String)
    ensures
        lowered@ == lowercase_of(text@),
;

/// `String::push` appends one character to the end of the string.
pub assume_specification[ String::push ](text: &mut String, ch: char)
    ensures
        final(text)@ == old(text)@.push(ch),
;

/// `part` stands in `whole` at position `at`, byte for byte.
spec fn stands_at(part: Seq<u8>, whole: Seq<u8>, at: int) -> bool {
    &&& 0 <= at
    &&& at + part.len() <= whole.len()
    &&& whole.subrange(at, at + part.len()) == part
}

/// The encoding of two texts put together is their encodings put together.
proof fn lemma_encode_joined(first: Seq<char>, second: Seq<char>)
    ensures
        encode_utf8(first + second) == encode_utf8(first) + encode_utf8(second),
    decreases first.len(),
{
    if first.len() == 0 {
        assert(first + second =~= second);
        assert(encode_utf8(first) + encode_utf8(second) =~= encode_utf8(second));
    } else {
        let joined = first + second;
        assert(joined[0] == first[0]);
        assert(joined.drop_first() =~= first.drop_first() + second);
        lemma_encode_joined(first.drop_first(), second);
        assert(encode_utf8(joined) =~= encode_utf8(first) + encode_utf8(second));
    }
}

/// Where a well-formed encoding begins with another, the other ends between
/// two characters of it.
proof fn lemma_boundary_after_prefix(whole: Seq<u8>, part: Seq<u8>)
    requires
        valid_utf8(whole),
        valid_utf8(part),
        part.len() <= whole.len(),
        whole.subrange(0, part.len() as int) == part,
    ensures
        is_char_boundary(whole, part.len() as int),
    decreases part.len(),
{
    if part.len() > 0 {
        let width = length_of_first_scalar(part);
        assert(part[0] == whole.subrange(0, part.len() as int)[0]);
        assert(width <= part.len());
        assert(length_of_first_scalar(whole) == width);
        let whole_rest = pop_first_scalar(whole);
        let part_rest = pop_first_scalar(part);
        assert(whole_rest.subrange(0, part_rest.len() as int) =~= part_rest) by {
            assert forall|i: int| 0 <= i < part_rest.len() implies whole_rest.subrange(
                0,
                part_rest.len() as int,
            )[i] == part_rest[i] by {
                assert(whole.subrange(0, part.len() as int)[width + i] == part[width + i]);
            }
        }
        lemma_boundary_after_prefix(whole_rest, part_rest);
    }
}

/// A position between two characters of the part behind such a position
/// lies between two characters of the whole.
proof fn lemma_boundary_behind(whole: Seq<u8>, from: int, ahead: int)
    requires
        valid_utf8(whole),
        is_char_boundary(whole, from),
        0 <= from <= whole.len(),
        is_char_boundary(whole.subrange(from, whole.len() as int), ahead),
        0 <= ahead <= whole.len() - from,
    ensures
        is_char_boundary(whole, from + ahead),
{
    let behind = whole.subrange(from, whole.len() as int);
    valid_utf8_split(whole, from);
    if from + ahead < whole.len() {
        is_char_boundary_iff_not_is_continuation_byte(behind, ahead);
        is_char_boundary_iff_not_is_continuation_byte(whole, from + ahead);
        assert(behind[ahead] == whole[from + ahead]);
    } else {
        is_char_boundary_start_end_of_seq(whole);
    }
}

/// A pattern occurs in a text exactly where the encoding of the pattern
/// stands in the encoding of the text.
proof fn lemma_occurs_in_bytes(pattern: Seq<char>, text: Seq<char>)
    ensures
        occurs_in(pattern, text) <==> exists|at: int|
            stands_at(encode_utf8(pattern), encode_utf8(text), at),
{
    let part = encode_utf8(pattern);
    let whole = encode_utf8(text);
    encode_utf8_valid_utf8(pattern);
    encode_utf8_valid_utf8(text);
    encode_utf8_decode_utf8(pattern);
    encode_utf8_decode_utf8(text);
    if occurs_in(pattern, text) {
        let at = choose|at: int| occurs_at(pattern, text, at);
        let before = text.take(at);
        let behind = text.skip(at + pattern.len());
        assert(text =~= before + pattern + behind);
        lemma_encode_joined(before + pattern, behind);
        lemma_encode_joined(before, pattern);
        let start = encode_utf8(before).len() as int;
        assert(whole.subrange(start, start + part.len()) =~= part);
        assert(stands_at(part, whole, start));
    }
    if exists|at: int| stands_at(part, whole, at) {
        let at = choose|at: int| stands_at(part, whole, at);
        if part.len() == 0 {
            assert(pattern.len() == 0) by {
                if pattern.len() > 0 {
                    assert(encode_scalar(pattern[0] as u32).len() > 0);
                }
            }
            assert(text.subrange(0, 0) =~= pattern);
            assert(occurs_at(pattern, text, 0));
        } else {
            assert(whole[at] == whole.subrange(at, at + part.len())[0]);
            assert(!is_continuation_byte(part[0]));
            is_char_boundary_iff_not_is_continuation_byte(whole, at);
            let behind = whole.subrange(at, whole.len() as int);
            valid_utf8_split(whole, at);
            assert(behind.subrange(0, part.len() as int) =~= part);
            lemma_boundary_after_prefix(behind, part);
            lemma_boundary_behind(whole, at, part.len() as int);
            decode_utf8_split(whole, at);
            decode_utf8_split(behind, part.len() as int);
            let before = decode_utf8(whole.subrange(0, at));
            let after = decode_utf8(behind.subrange(part.len() as int, behind.len() as int));
            assert(text =~= before + pattern + after);
            assert(text.subrange(before.len() as int, (before.len() + pattern.len()) as int)
                =~= pattern);
            assert(occurs_at(pattern, text, before.len() as int));
        }
    }
}

/// Whether `part` stands in `whole` at position `at`.
fn found_at(part: &[u8], whole: &[u8], at: usize) -> (found: bool)
    requires
        at + part.len() <= whole.len(),
    ensures
        found == stands_at(part@, whole@, at as int),
{
    let mut k: usize = 0;
    while k < part.len()
        invariant
            k <= part.len(),
            at + part.len() <= whole.len(),
            forall|j: int| 0 <= j < k ==> whole@[at + j] == part@[j],
        decreases part.len() - k,
    {
        if whole[at + k] != part[k] {
            assert(whole@.subrange(at as int, at + part.len())[k as int] != part@[k as int]);
            return false;
        }
        k += 1;
    }
    assert(whole@.subrange(at as int, at + part.len()) =~= part@);
    true
}

/// Whether `pattern` is a contiguous part of `text`.
pub fn occurs(pattern: &str, text: &str) -> (found: bool)
    ensures
        found == occurs_in(pattern@, text@),
{
    let part = pattern.as_bytes();
    let whole = text.as_bytes();
    proof {
        lemma_occurs_in_bytes(pattern@, text@);
    }
    if part.len() > whole.len() {
        return false;
    }
    let last: usize = whole.len() - part.len();
    let mut at: usize = 0;
    loop
        invariant
            at <= last,
            last + part.len() == whole.len(),
            part@ == encode_utf8(pattern@),
            whole@ == encode_utf8(text@),
            forall|k: int| 0 <= k < at ==> !stands_at(part@, whole@, k),
        decreases last - at,
    {
        proof {
            lemma_occurs_in_bytes(pattern@, text@);
        }
        if found_at(part, whole, at) {
            return true;
        }
        if at == last {
            return false;
        }
        at += 1;
    }
}

/// The character that stands for the digit `d`.
pub open spec fn digit_of(d: nat) -> char {
    (d + 48) as char
}

/// The decimal numeral of `n`, without leading zeros.
pub open spec fn decimal_of(n: nat) -> Seq<char>
    decreases n,
{
    if n < 10 {
        seq![digit_of(n)]
    } else {
        decimal_of(n / 10).push(digit_of(n % 10))
    }
}

/// Appends the decimal numeral of `n` to `out`.
pub fn push_decimal(out: &mut String, n: usize)
    ensures
        final(out)@ == old(out)@ + decimal_of(n as nat),
    decreases n,
{
    if n >= 10 {
        push_decimal(out, n / 10);
    }
    let d: u8 = (n % 10) as u8;
    out.push((d + 48) as char);
}

/// Whether the two texts are the same.
pub fn same_text(left: &str, right: &str) -> (same: bool)
    ensures
        same == (left@ == right@),
{
    let first = left.as_bytes();
    let second = right.as_bytes();
    proof {
        encode_utf8_decode_utf8(left@);
        encode_utf8_decode_utf8(right@);
    }
    if first.len() != second.len() {
        return false;
    }
    let mut i: usize = 0;
    while i < first.len()
        invariant
            i <= first.len(),
            first.len() == second.len(),
            first@ == encode_utf8(left@),
            second@ == encode_utf8(right@),
            forall|j: int| 0 <= j < i ==> first@[j] == second@[j],
        decreases first.len() - i,
    {
        if first[i] != second[i] {
            return false;
        }
        i += 1;
    }
    assert(first@ =~= second@);
    true
}

} // verus!
