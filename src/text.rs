//! Character-level primitives shared by the segmenter and the transformer.

use vstd::prelude::*;

verus! {

/// Whether `c` has the Unicode `White_Space` property.
pub uninterp spec fn white_space(c: char) -> bool;

/// Whether `c` is a Unicode word character (alphabetic, mark, decimal
/// number, connector punctuation or join control).
pub uninterp spec fn word_char(c: char) -> bool;

/// Relies on `char::is_whitespace`: whether `c` has the `White_Space`
/// property.
#[verifier::external_body]
pub(crate) fn is_space(c: char) -> (r: bool)
    ensures
        r == white_space(c),
{
    c.is_whitespace()
}

/// Relies on `regex_syntax::is_word_character`: whether `c` is a Unicode
/// word character, the class that `\w` denotes.
#[verifier::external_body]
pub(crate) fn is_word(c: char) -> (r: bool)
    ensures
        r == word_char(c),
{
    regex_syntax::is_word_character(c)
}

/// Relies on `String::push`: appends one character.
#[verifier::external_body]
pub(crate) fn push_char(s: &mut String, c: char)
    ensures
        final(s)@ == old(s)@.push(c),
{
    s.push(c)
}

/// The characters of `s`, in order.
pub fn chars_of(s: &str) -> (r: Vec<char>)
    ensures
        r@ == s@,
{
    let mut r: Vec<char> = Vec::new();
    for c in it: s.chars()
        invariant
            r@ == it.seq().take(it.index() as int),
    {
        r.push(c);
    }
    assert(r@ =~= s@);
    r
}

/// Whether `c` is an ASCII decimal digit.
pub open spec fn is_digit(c: char) -> bool {
    '0' <= c && c <= '9'
}

/// The number of ASCII digits at the start of `s`.
pub open spec fn lead_digits(s: Seq<char>) -> nat
    decreases s.len(),
{
    if s.len() > 0 && is_digit(s[0]) {
        1 + lead_digits(s.drop_first())
    } else {
        0
    }
}

/// The number of `c` at the start of `s`.
pub open spec fn lead_run(s: Seq<char>, c: char) -> nat
    decreases s.len(),
{
    if s.len() > 0 && s[0] == c {
        1 + lead_run(s.drop_first(), c)
    } else {
        0
    }
}

/// The number of characters other than `c` at the start of `s`.
pub open spec fn lead_other(s: Seq<char>, c: char) -> nat
    decreases s.len(),
{
    if s.len() > 0 && s[0] != c {
        1 + lead_other(s.drop_first(), c)
    } else {
        0
    }
}

/// The number of white-space characters at the start of `s`.
pub open spec fn lead_space(s: Seq<char>) -> nat
    decreases s.len(),
{
    if s.len() > 0 && white_space(s[0]) {
        1 + lead_space(s.drop_first())
    } else {
        0
    }
}

/// `s` without the white space at its start.
pub open spec fn trim_start(s: Seq<char>) -> Seq<char>
    decreases s.len(),
{
    if s.len() > 0 && white_space(s[0]) {
        trim_start(s.drop_first())
    } else {
        s
    }
}

/// `s` without the white space at its end.
pub open spec fn trim_end(s: Seq<char>) -> Seq<char>
    decreases s.len(),
{
    if s.len() > 0 && white_space(s.last()) {
        trim_end(s.drop_last())
    } else {
        s
    }
}

/// `s` without the white space at either end.
pub open spec fn trim(s: Seq<char>) -> Seq<char> {
    trim_end(trim_start(s))
}

/// Appends `cs[from..to]` to `out`.
pub fn push_range(out: &mut String, cs: &Vec<char>, from: usize, to: usize)
    requires
        from <= to <= cs@.len(),
    ensures
        final(out)@ == old(out)@ + cs@.subrange(from as int, to as int),
{
    let mut i = from;
    while i < to
        invariant
            from <= i <= to <= cs@.len(),
            out@ == old(out)@ + cs@.subrange(from as int, i as int),
        decreases to - i,
    {
        push_char(out, cs[i]);
        i = i + 1;
        proof {
            assert(out@ =~= old(out)@ + cs@.subrange(from as int, i as int));
        }
    }
}

/// The number of ASCII digits at the start of `cs[from..to]`.
pub fn count_digits(cs: &Vec<char>, from: usize, to: usize) -> (r: usize)
    requires
        from <= to <= cs@.len(),
    ensures
        r == lead_digits(cs@.subrange(from as int, to as int)),
        from + r <= to,
{
    let mut i = from;
    while i < to && '0' <= cs[i] && cs[i] <= '9'
        invariant
            from <= i <= to <= cs@.len(),
            lead_digits(cs@.subrange(from as int, to as int)) == (i - from) + lead_digits(
                cs@.subrange(i as int, to as int),
            ),
        decreases to - i,
    {
        proof {
            assert(cs@.subrange(i as int, to as int).drop_first() =~= cs@.subrange(
                i + 1,
                to as int,
            ));
        }
        i = i + 1;
    }
    i - from
}

/// The number of copies of `c` at the start of `cs[from..to]`.
pub fn count_run(cs: &Vec<char>, from: usize, to: usize, c: char) -> (r: usize)
    requires
        from <= to <= cs@.len(),
    ensures
        r == lead_run(cs@.subrange(from as int, to as int), c),
        from + r <= to,
{
    let mut i = from;
    while i < to && cs[i] == c
        invariant
            from <= i <= to <= cs@.len(),
            lead_run(cs@.subrange(from as int, to as int), c) == (i - from) + lead_run(
                cs@.subrange(i as int, to as int),
                c,
            ),
        decreases to - i,
    {
        proof {
            assert(cs@.subrange(i as int, to as int).drop_first() =~= cs@.subrange(
                i + 1,
                to as int,
            ));
        }
        i = i + 1;
    }
    i - from
}

/// The number of characters other than `c` at the start of `cs[from..to]`.
pub fn count_until(cs: &Vec<char>, from: usize, to: usize, c: char) -> (r: usize)
    requires
        from <= to <= cs@.len(),
    ensures
        r == lead_other(cs@.subrange(from as int, to as int), c),
        from + r <= to,
        from + r < to ==> cs@[from + r] == c,
{
    let mut i = from;
    while i < to && cs[i] != c
        invariant
            from <= i <= to <= cs@.len(),
            lead_other(cs@.subrange(from as int, to as int), c) == (i - from) + lead_other(
                cs@.subrange(i as int, to as int),
                c,
            ),
        decreases to - i,
    {
        proof {
            assert(cs@.subrange(i as int, to as int).drop_first() =~= cs@.subrange(
                i + 1,
                to as int,
            ));
        }
        i = i + 1;
    }
    i - from
}

/// The number of white-space characters at the start of `cs[from..to]`.
pub fn count_space(cs: &Vec<char>, from: usize, to: usize) -> (r: usize)
    requires
        from <= to <= cs@.len(),
    ensures
        r == lead_space(cs@.subrange(from as int, to as int)),
        from + r <= to,
{
    let mut i = from;
    while i < to && is_space(cs[i])
        invariant
            from <= i <= to <= cs@.len(),
            lead_space(cs@.subrange(from as int, to as int)) == (i - from) + lead_space(
                cs@.subrange(i as int, to as int),
            ),
        decreases to - i,
    {
        proof {
            assert(cs@.subrange(i as int, to as int).drop_first() =~= cs@.subrange(
                i + 1,
                to as int,
            ));
        }
        i = i + 1;
    }
    i - from
}

/// Whether `cs[from..to]` starts with `pat`.
pub fn starts_with_at(cs: &Vec<char>, from: usize, to: usize, pat: &str) -> (r: bool)
    requires
        from <= to <= cs@.len(),
    ensures
        r == (pat@.len() <= to - from && cs@.subrange(from as int, from + pat@.len()) == pat@),
{
    let ps = chars_of(pat);
    if ps.len() > to - from {
        return false;
    }
    let mut i: usize = 0;
    while i < ps.len()
        invariant
            i <= ps@.len(),
            from + ps@.len() <= to <= cs@.len(),
            ps@ == pat@,
            forall|j: int| 0 <= j < i ==> cs@[from + j] == ps@[j],
        decreases ps@.len() - i,
    {
        if cs[from + i] != ps[i] {
            proof {
                assert(cs@.subrange(from as int, from + pat@.len())[i as int] != pat@[i as int]);
            }
            return false;
        }
        i = i + 1;
    }
    proof {
        assert(cs@.subrange(from as int, from + pat@.len()) =~= pat@);
    }
    true
}

/// The bounds of `cs[from..to]` once white space is trimmed from both ends.
pub fn trim_bounds(cs: &Vec<char>, from: usize, to: usize) -> (r: (usize, usize))
    requires
        from <= to <= cs@.len(),
    ensures
        from <= r.0 <= r.1 <= to,
        cs@.subrange(r.0 as int, r.1 as int) == trim(cs@.subrange(from as int, to as int)),
{
    let mut a = from;
    while a < to && is_space(cs[a])
        invariant
            from <= a <= to <= cs@.len(),
            trim_start(cs@.subrange(from as int, to as int)) == trim_start(
                cs@.subrange(a as int, to as int),
            ),
        decreases to - a,
    {
        proof {
            assert(cs@.subrange(a as int, to as int).drop_first() =~= cs@.subrange(
                a + 1,
                to as int,
            ));
        }
        a = a + 1;
    }
    let mut b = to;
    while b > a && is_space(cs[b - 1])
        invariant
            from <= a <= b <= to <= cs@.len(),
            trim(cs@.subrange(from as int, to as int)) == trim_end(
                cs@.subrange(a as int, b as int),
            ),
        decreases b - a,
    {
        proof {
            assert(cs@.subrange(a as int, b as int).drop_last() =~= cs@.subrange(
                a as int,
                b - 1,
            ));
        }
        b = b - 1;
    }
    (a, b)
}

} // verus!
