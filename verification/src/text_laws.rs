//! What holds of the small things that texts are read with: white space,
//! numbers, and texts that are taken apart.

use vstd::prelude::*;

use crate::number::{digits_value, is_digit, parsed, parsed_signed};
use crate::text::{
    is_space, joined_with, lemma_position, lemma_position_is, lines, position, split, split_once, trim_end,
    trim_start, trimmed, without_cr,
};

verus! {

// ---------------------------------------------------------------------------
// White space
// ---------------------------------------------------------------------------
/// Of the characters of a plain text, the blank, the tabulator and what ends a
/// line are white space, and nothing that is seen is.
pub proof fn what_is_seen_is_not_space(c: char)
    ensures
        c == ' ' || c == '\t' || c == '\n' || c == '\r' ==> is_space(c),
        '!' <= c <= '~' ==> !is_space(c),
{
}

proof fn lemma_start(s: Seq<char>) -> (k: int)
    ensures
        0 <= k <= s.len(),
        trim_start(s) == s.skip(k),
        forall|i: int| 0 <= i < k ==> is_space(#[trigger] s[i]),
        k < s.len() ==> !is_space(s[k]),
    decreases s.len(),
{
    if s.len() > 0 && is_space(s[0]) {
        let k = lemma_start(s.drop_first());
        assert(s.drop_first().skip(k) =~= s.skip(k + 1));
        assert forall|i: int| 0 <= i < k + 1 implies is_space(#[trigger] s[i]) by {
            if i > 0 {
                assert(s.drop_first()[i - 1] == s[i]);
            }
        }
        if k + 1 < s.len() {
            assert(s.drop_first()[k] == s[k + 1]);
        }
        k + 1
    } else {
        assert(s.skip(0) =~= s);
        0
    }
}

proof fn lemma_end(s: Seq<char>) -> (k: int)
    ensures
        0 <= k <= s.len(),
        trim_end(s) == s.take(k),
        forall|i: int| k <= i < s.len() ==> is_space(#[trigger] s[i]),
        k > 0 ==> !is_space(s[k - 1]),
    decreases s.len(),
{
    if s.len() > 0 && is_space(s.last()) {
        let k = lemma_end(s.drop_last());
        assert(s.drop_last().take(k) =~= s.take(k));
        assert forall|i: int| k <= i < s.len() implies is_space(#[trigger] s[i]) by {
            if i < s.len() - 1 {
                assert(s.drop_last()[i] == s[i]);
            }
        }
        k
    } else {
        assert(s.take(s.len() as int) =~= s);
        s.len() as int
    }
}

/// Whether all of a text is white space.
pub open spec fn is_blank(s: Seq<char>) -> bool {
    forall|i: int| 0 <= i < s.len() ==> is_space(#[trigger] s[i])
}

/// Trimming takes the white space off both ends, all of it and nothing else;
/// doing it again changes nothing.
pub proof fn trimming_takes_off_both_ends(s: Seq<char>)
    ensures
        exists|a: Seq<char>, b: Seq<char>|
            #[trigger] is_blank(a) && #[trigger] is_blank(b) && s == a + trimmed(s) + b,
        trimmed(s).len() > 0 ==> !is_space(trimmed(s)[0]) && !is_space(trimmed(s).last()),
        trimmed(trimmed(s)) == trimmed(s),
{
    let k = lemma_start(s);
    let rest = s.skip(k);
    let n = lemma_end(rest);
    let a = s.take(k);
    let b = rest.skip(n);
    let t = trimmed(s);
    assert(t == rest.take(n));
    assert(s =~= a + t + b);
    assert(is_blank(a));
    assert forall|i: int| 0 <= i < b.len() implies is_space(#[trigger] b[i]) by {
        assert(b[i] == rest[n + i]);
    }
    assert(is_blank(b));
    if t.len() > 0 {
        assert(t[0] == rest[0] && rest[0] == s[k]);
        assert(t.last() == rest[n - 1]);
        assert(trim_start(t) == t);
        assert(trim_end(t) == t);
    }
}

// ---------------------------------------------------------------------------
// Numbers
// ---------------------------------------------------------------------------
/// A text reads as a number if it is digits, at least one, with or without a
/// plus sign, and the number is not too large; each further digit counts ten
/// times what stands before it.
pub proof fn digits_read_as_a_number(s: Seq<char>, c: char, max: nat)
    ensures
        ({
            let further = parsed(s.push(c), max);
            &&& parsed(Seq::empty(), max) is None
            &&& '0' <= c <= '9' ==> parsed(seq![c], max) == if (c as u32) - 48 <= max {
                Some(((c as u32) - 48) as nat)
            } else {
                None
            }
            &&& !('0' <= c <= '9') ==> parsed(seq![c], max) is None
            &&& parsed(s, max) is Some && '0' <= c <= '9' ==> further == if 10 * parsed(s, max)->0 + ((
            c as u32) - 48) <= max {
                Some((10 * parsed(s, max)->0 + ((c as u32) - 48)) as nat)
            } else {
                None
            }
            &&& !('0' <= c <= '9') ==> further is None
            &&& s.len() > 0 && s[0] != '+' ==> parsed(seq!['+'] + s, max) == parsed(s, max)
            &&& s.len() > 0 && s[0] == '+' ==> parsed(seq!['+'] + s, max) is None
            &&& parsed(s, max) matches Some(n) ==> n <= max
        }),
{
    let t = s.push(c);
    reveal_with_fuel(digits_value, 2);
    assert(seq![c].drop_last() =~= seq![]);
    assert(seq![c].last() == c);
    assert(seq![c][0] == c);
    if c == '+' {
        assert(seq![c].drop_first() =~= seq![]);
    }
    if !is_digit(c) && t.len() > 0 {
        let digits = if t[0] == '+' {
            t.drop_first()
        } else {
            t
        };
        if digits.len() > 0 {
            assert(digits[digits.len() - 1] == c);
        }
    }
    if parsed(s, max) is Some {
        let digits = if s[0] == '+' {
            s.drop_first()
        } else {
            s
        };
        let more = digits.push(c);
        assert(t[0] == s[0]);
        if s[0] == '+' {
            assert(t.drop_first() =~= more);
        }
        assert(more.drop_last() =~= digits);
        assert(more.last() == c);
        if is_digit(c) {
            assert forall|i: int| 0 <= i < more.len() implies is_digit(#[trigger] more[i]) by {
                if i < digits.len() {
                    assert(more[i] == digits[i]);
                }
            }
        }
    }
    if s.len() > 0 {
        let signed = seq!['+'] + s;
        assert(signed.drop_first() =~= s);
        if s[0] == '+' {
            assert(!is_digit(s[0]));
        }
    }
}

/// A minus sign turns a number into its negative; without one the text reads as
/// it does without a sign.
pub proof fn a_minus_sign_negates(s: Seq<char>)
    ensures
        s.len() > 0 && s[0] != '+' && s[0] != '-' && parsed_signed(s) is Some ==> parsed_signed(seq!['-'] + s)
            == Some(-parsed_signed(s)->0),
        s.len() > 0 && s[0] != '-' ==> (parsed_signed(s) matches Some(n) ==> parsed(s, i64::MAX as nat)
            == Some(n as nat) && n >= 0),
        s.len() > 0 && s[0] != '-' && parsed(s, i64::MAX as nat) is Some ==> parsed_signed(s) is Some,
        s.len() > 0 && s[0] == '-' ==> parsed_signed(seq!['-'] + s) is None,
        parsed_signed(seq!['-']) is None,
{
    let signed = seq!['-'] + s;
    assert(signed.drop_first() =~= s);
    assert(seq!['-'].drop_first() =~= seq![]);
    if s.len() > 0 && s[0] == '-' {
        assert(!is_digit(s[0]));
    }
}

// ---------------------------------------------------------------------------
// Texts that are taken apart
// ---------------------------------------------------------------------------
/// What is taken apart at a character is the parts with that character between.
pub proof fn what_was_split_is_joined_again(s: Seq<char>, c: char)
    ensures
        joined_with(split(s, c), seq![c]) == s,
    decreases s.len(),
{
    let p = position(s, c) as int;
    lemma_position(s, c);
    if p < s.len() {
        let rest = s.skip(p + 1);
        what_was_split_is_joined_again(rest, c);
        lemma_joined_first(s.take(p), split(rest, c), seq![c]);
        assert(s =~= s.take(p) + seq![c] + rest);
    }
}

proof fn lemma_joined_first(first: Seq<char>, parts: Seq<Seq<char>>, between: Seq<char>)
    requires
        parts.len() > 0,
    ensures
        joined_with(seq![first] + parts, between) == first + between + joined_with(parts, between),
    decreases parts.len(),
{
    let all = seq![first] + parts;
    if parts.len() == 1 {
        assert(all.drop_last() =~= seq![first]);
        assert(joined_with(seq![first], between) == first);
        assert(all.last() == parts[0]);
    } else {
        lemma_joined_first(first, parts.drop_last(), between);
        assert(all.drop_last() =~= seq![first] + parts.drop_last());
        assert(all.last() == parts.last());
        assert(first + between + joined_with(parts.drop_last(), between) + between + parts.last() =~= first
            + between + (joined_with(parts.drop_last(), between) + between + parts.last()));
    }
}

/// A text is taken apart once at the first such character, and not at all where
/// it holds none.
pub proof fn a_text_is_taken_apart_at_the_first(s: Seq<char>, c: char)
    ensures
        split_once(s, c) is None <==> !s.contains(c),
        split_once(s, c) matches Some((before, behind)) ==> s == before.push(c) + behind
            && !before.contains(c),
{
    lemma_position(s, c);
    let p = position(s, c) as int;
    if p < s.len() {
        assert(s =~= s.take(p).push(c) + s.skip(p + 1));
        assert(s[p] == c);
        if s.take(p).contains(c) {
            let k = choose|k: int| 0 <= k < p && s.take(p)[k] == c;
            assert(s[k] == c);
        }
    } else if s.contains(c) {
        let k = choose|k: int| 0 <= k < s.len() && s[k] == c;
        assert(s[k] == c);
    }
}

/// Each line ends with a line feed, which is no part of it, nor is a carriage
/// return right before it; what follows the last line feed is a line too, if
/// there is anything.
pub proof fn lines_end_with_a_line_feed(line: Seq<char>, rest: Seq<char>)
    requires
        !line.contains('\n'),
    ensures
        lines(line.push('\n') + rest) == seq![without_cr(line)] + lines(rest),
        lines(line) == if line.len() > 0 {
            seq![line]
        } else {
            seq![]
        },
        line.len() == 0 || line.last() != '\r' ==> without_cr(line) == line,
        without_cr(line.push('\r')) == line,
{
    let whole = line.push('\n') + rest;
    let n = line.len() as int;
    assert(whole[n] == '\n');
    assert forall|i: int| 0 <= i < n implies whole[i] != '\n' by {
        assert(whole[i] == line[i]);
        assert(line.contains(line[i]));
    }
    lemma_position_is(whole, '\n', n);
    assert(whole.take(n) =~= line);
    assert(whole.skip(n + 1) =~= rest);
    lemma_position(line, '\n');
    assert(line.push('\r').drop_last() =~= line);
}

/// The characters that are white space, by their numbers.
pub open spec fn white_space() -> Seq<int> {
    seq![
        0x9,
        0xa,
        0xb,
        0xc,
        0xd,
        0x20,
        0x85,
        0xa0,
        0x1680,
        0x2000,
        0x2001,
        0x2002,
        0x2003,
        0x2004,
        0x2005,
        0x2006,
        0x2007,
        0x2008,
        0x2009,
        0x200a,
        0x2028,
        0x2029,
        0x202f,
        0x205f,
        0x3000,
    ]
}

/// No other character is white space.
pub proof fn nothing_else_is_space(c: char)
    ensures
        is_space(c) <==> white_space().contains(c as int),
{
    let all = white_space();
    let n = c as int;
    if all.contains(n) {
        let i = choose|i: int| 0 <= i < all.len() && all[i] == n;
    }
    if is_space(c) {
        let i = if n <= 0xd {
            n - 0x9
        } else if n == 0x20 {
            5
        } else if n == 0x85 {
            6
        } else if n == 0xa0 {
            7
        } else if n == 0x1680 {
            8
        } else if n <= 0x200a {
            n - 0x2000 + 9
        } else if n == 0x2028 {
            20
        } else if n == 0x2029 {
            21
        } else if n == 0x202f {
            22
        } else if n == 0x205f {
            23
        } else {
            24
        };
        assert(all[i] == n);
    }
}

} // verus!
