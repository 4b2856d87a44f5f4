//! Character-level helpers on strings: comparison, prefixes, splitting on a
//! separator, base names and unsigned decimal numbers.
//!
//! Every contract speaks of the view of a string, a `Seq<char>`.

use vstd::prelude::*;
use vstd::string::StringSliceAdditionalSpecFns;
use vstd::utf8::encode_utf8_decode_utf8;

verus! {

/// The characters of `s`, in order.
pub fn chars_of(s: &str) -> (out: Vec<char>)
    ensures
        out@ == s@,
{
    let mut out: Vec<char> = Vec::new();
    for c in it: s.chars()
        invariant
            out@ == it.seq().take(it.index() as int),
            it.seq() == s@,
    {
        out.push(c);
    }
    out
}

/// Whether two strings hold the same characters.
pub fn str_eq(a: &str, b: &str) -> (same: bool)
    ensures
        same == (a@ == b@),
{
    let x = a.as_bytes();
    let y = b.as_bytes();
    proof {
        // Two strings with the same encoding decode to the same characters.
        encode_utf8_decode_utf8(a@);
        encode_utf8_decode_utf8(b@);
    }
    if x.len() != y.len() {
        return false;
    }
    let mut i: usize = 0;
    while i < x.len()
        invariant
            i <= x.len(),
            x.len() == y.len(),
            x@ == a.spec_bytes(),
            y@ == b.spec_bytes(),
            forall|j: int| 0 <= j < i ==> x@[j] == y@[j],
        decreases x.len() - i,
    {
        if x[i] != y[i] {
            return false;
        }
        i += 1;
    }
    assert(x@ =~= y@);
    true
}

/// Whether `s` begins with the characters of `prefix`.
pub fn starts_with(s: &str, prefix: &str) -> (yes: bool)
    ensures
        yes == prefix@.is_prefix_of(s@),
{
    let text = chars_of(s);
    let head = chars_of(prefix);
    if head.len() > text.len() {
        return false;
    }
    let mut i: usize = 0;
    while i < head.len()
        invariant
            i <= head.len() <= text.len(),
            text@ == s@,
            head@ == prefix@,
            forall|j: int| 0 <= j < i ==> text@[j] == head@[j],
        decreases head.len() - i,
    {
        if text[i] != head[i] {
            assert(text@.subrange(0, head@.len() as int)[i as int] != head@[i as int]);
            return false;
        }
        i += 1;
    }
    assert(head@ =~= text@.subrange(0, head@.len() as int));
    true
}

/// The pieces of `s` between occurrences of `sep`, in order. Read from the
/// left, each character either closes the current piece (the separator) or
/// extends it, so a string without separators is one piece and a string with
/// `n` separators has `n + 1` of them, some possibly empty.
pub open spec fn tokens(s: Seq<char>, sep: char) -> Seq<Seq<char>>
    decreases s.len(),
{
    if s.len() == 0 {
        seq![Seq::<char>::empty()]
    } else {
        let before = tokens(s.drop_last(), sep);
        if s.last() == sep {
            before.push(Seq::<char>::empty())
        } else {
            before.drop_last().push(before.last().push(s.last()))
        }
    }
}

/// Number of occurrences of `c` in `s`.
pub open spec fn occurrences(s: Seq<char>, c: char) -> nat
    decreases s.len(),
{
    if s.len() == 0 {
        0
    } else {
        occurrences(s.drop_last(), c) + if s.last() == c { 1nat } else { 0nat }
    }
}

/// `tokens` never returns an empty sequence: there is one piece more than
/// there are separators.
pub proof fn lemma_tokens_len(s: Seq<char>, sep: char)
    ensures
        tokens(s, sep).len() == occurrences(s, sep) + 1,
    decreases s.len(),
{
    if s.len() > 0 {
        lemma_tokens_len(s.drop_last(), sep);
    }
}

/// Splits `s` at every occurrence of `sep`.
pub fn split(s: &str, sep: char) -> (out: Vec<String>)
    ensures
        out.deep_view() == tokens(s@, sep),
{
    let text = chars_of(s);
    let mut out: Vec<String> = Vec::new();
    let mut start: usize = 0;
    let mut i: usize = 0;
    assert(s@.take(0) =~= Seq::<char>::empty());
    assert(out.deep_view().push(s@.subrange(0, 0)) =~= seq![Seq::<char>::empty()]);
    while i < text.len()
        invariant
            text@ == s@,
            start <= i <= text.len(),
            tokens(s@.take(i as int), sep) == out.deep_view().push(
                s@.subrange(start as int, i as int),
            ),
        decreases text.len() - i,
    {
        let ghost shorter = s@.take(i as int);
        let ghost longer = s@.take(i + 1);
        let ghost done = out.deep_view();
        let ghost piece = s@.subrange(start as int, i as int);
        assert(longer.drop_last() =~= shorter);
        assert(longer.last() == s@[i as int]);
        if text[i] == sep {
            let token = s.substring_char(start, i).to_owned();
            out.push(token);
            start = i + 1;
            assert(out.deep_view() =~= done.push(piece));
            assert(s@.subrange(start as int, i + 1) =~= Seq::<char>::empty());
        } else {
            assert(done.push(piece).drop_last() =~= done);
            assert(piece.push(s@[i as int]) =~= s@.subrange(start as int, i + 1));
        }
        i += 1;
    }
    let ghost done = out.deep_view();
    assert(s@.take(i as int) =~= s@);
    let token = s.substring_char(start, i).to_owned();
    out.push(token);
    assert(out.deep_view() =~= done.push(s@.subrange(start as int, i as int)));
    out
}

/// Index of the last occurrence of `c` in `s`, or -1 where there is none.
pub open spec fn last_index_of(s: Seq<char>, c: char) -> int
    decreases s.len(),
{
    if s.len() == 0 {
        -1
    } else if s.last() == c {
        s.len() - 1
    } else {
        last_index_of(s.drop_last(), c)
    }
}

/// A file name without its extension: the part before the last dot. A name
/// without a dot, or whose only dot comes first, is its own stem.
pub open spec fn stem(name: Seq<char>) -> Seq<char> {
    let dot = last_index_of(name, '.');
    if dot <= 0 {
        name
    } else {
        name.take(dot)
    }
}

/// Drops the extension from a file name.
pub fn strip_extension(name: &str) -> (out: &str)
    ensures
        out@ == stem(name@),
{
    let text = chars_of(name);
    let mut dot: usize = 0;
    let mut i: usize = 0;
    assert(name@.take(0) =~= Seq::<char>::empty());
    while i < text.len()
        invariant
            text@ == name@,
            dot <= i <= text.len(),
            dot > 0 ==> last_index_of(name@.take(i as int), '.') == dot,
            dot == 0 ==> last_index_of(name@.take(i as int), '.') <= 0,
        decreases text.len() - i,
    {
        assert(name@.take(i + 1).drop_last() =~= name@.take(i as int));
        if text[i] == '.' {
            dot = i;
        }
        i += 1;
    }
    assert(name@.take(i as int) =~= name@);
    if dot > 0 {
        name.substring_char(0, dot)
    } else {
        name
    }
}

/// Whether `c` is one of the ten decimal digits.
pub open spec fn is_digit(c: char) -> bool {
    '0' <= c <= '9'
}

/// The number that a string of decimal digits writes, most significant digit
/// first; leading zeros count for nothing.
pub open spec fn decimal(digits: Seq<char>) -> nat
    decreases digits.len(),
{
    if digits.len() == 0 {
        0
    } else {
        10 * decimal(digits.drop_last()) + (digits.last() as u32 - '0' as u32) as nat
    }
}

/// Whether every character of `s` is a decimal digit.
pub open spec fn all_digits(s: Seq<char>) -> bool {
    forall|i: int| 0 <= i < s.len() ==> is_digit(#[trigger] s[i])
}

/// The number that `digits` writes where it is one or more decimal digits and
/// fits in 64 bits.
pub open spec fn unsigned(digits: Seq<char>) -> Option<u64> {
    if digits.len() > 0 && all_digits(digits) && decimal(digits) <= u64::MAX {
        Some(decimal(digits) as u64)
    } else {
        None
    }
}

/// What an unsigned 64-bit field holds: an optional `+`, then one or more
/// decimal digits whose number fits in 64 bits. Anything else (an empty
/// field, a sign alone, a minus, a blank, a digit too many) holds no number.
pub open spec fn number(s: Seq<char>) -> Option<u64> {
    if s.len() > 0 && s[0] == '+' {
        unsigned(s.drop_first())
    } else {
        unsigned(s)
    }
}

/// A number never shrinks when digits are appended to it.
pub proof fn lemma_decimal_grows(digits: Seq<char>, k: int)
    requires
        0 <= k <= digits.len(),
        all_digits(digits),
    ensures
        decimal(digits.take(k)) <= decimal(digits),
    decreases digits.len() - k,
{
    if k < digits.len() {
        let next = digits.take(k + 1);
        assert(next.drop_last() =~= digits.take(k));
        assert(is_digit(digits[k]));
        assert(next.last() == digits[k]);
        lemma_decimal_grows(digits, k + 1);
    } else {
        assert(digits.take(k) =~= digits);
    }
}

/// Reads an unsigned 64-bit number from a field.
pub fn parse_u64(s: &str) -> (out: Option<u64>)
    ensures
        out == number(s@),
{
    let text = chars_of(s);
    let skip: usize = if text.len() > 0 && text[0] == '+' {
        1
    } else {
        0
    };
    let ghost digits = s@.skip(skip as int);
    assert(skip == 1 ==> digits =~= s@.drop_first());
    assert(skip == 0 ==> digits =~= s@);
    if text.len() == skip {
        return None;
    }
    let mut value: u64 = 0;
    let mut i: usize = skip;
    assert(digits.take(0) =~= Seq::<char>::empty());
    while i < text.len()
        invariant
            text@ == s@,
            skip <= i <= text.len(),
            digits == s@.skip(skip as int),
            number(s@) == unsigned(digits),
            all_digits(digits.take(i - skip)),
            value == decimal(digits.take(i - skip)),
        decreases text.len() - i,
    {
        let c = text[i];
        let ghost k = i - skip;
        let ghost longer = digits.take(k + 1);
        assert(longer.drop_last() =~= digits.take(k));
        assert(longer.last() == c);
        if c < '0' || c > '9' {
            assert(!is_digit(digits[k]));
            return None;
        }
        let d: u64 = (c as u32 - '0' as u32) as u64;
        if value > (u64::MAX - d) / 10 {
            proof {
                assert(decimal(longer) > u64::MAX);
                if all_digits(digits) {
                    lemma_decimal_grows(digits, k + 1);
                }
            }
            return None;
        }
        value = value * 10 + d;
        assert forall|j: int| 0 <= j < longer.len() implies is_digit(#[trigger] longer[j]) by {
            if j < k {
                assert(longer[j] == digits.take(k)[j]);
            }
        }
        i += 1;
    }
    assert(digits.take(i - skip) =~= digits);
    Some(value)
}

} // verus!
