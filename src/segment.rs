//! The segmenter: a document's title, its license prologue and its body.

use vstd::prelude::*;
use crate::error::DreadError;
use crate::text::{
    chars_of, count_run, count_space, count_until, is_digit, is_space, is_word, lead_other,
    lead_run, lead_space, push_char, push_range, starts_with_at, trim, trim_bounds, white_space,
    word_char,
};

verus! {

/// Whether `s` starts with `p`.
pub open spec fn starts_with(s: Seq<char>, p: Seq<char>) -> bool {
    p.len() <= s.len() && s.subrange(0, p.len() as int) == p
}

/// Whether `s` has `p` at index `i`, as `starts_with` on the rest of `s`.
pub proof fn lemma_starts_with_at(s: Seq<char>, i: int, p: Seq<char>)
    requires
        0 <= i <= s.len(),
    ensures
        starts_with(s.subrange(i, s.len() as int), p) == (p.len() <= s.len() - i && s.subrange(
            i,
            i + p.len(),
        ) == p),
{
    if p.len() <= s.len() - i {
        assert(s.subrange(i, s.len() as int).subrange(0, p.len() as int) =~= s.subrange(
            i,
            i + p.len(),
        ));
    }
}

/// `s` without its colons.
pub open spec fn drop_colons(s: Seq<char>) -> Seq<char>
    decreases s.len(),
{
    if s.len() == 0 {
        seq![]
    } else if s.last() == ':' {
        drop_colons(s.drop_last())
    } else {
        drop_colons(s.drop_last()).push(s.last())
    }
}

/// The text of the header on the first line of `s`: after one or more `#`
/// and white space, trimmed; `None` where the first line is no such header.
pub open spec fn header_title(s: Seq<char>) -> Option<Seq<char>> {
    let line = s.subrange(0, lead_other(s, '\n') as int);
    let h = lead_run(line, '#');
    let t = trim(line.subrange(h as int, line.len() as int));
    if h >= 1 && h < line.len() && white_space(line[h as int]) && t.len() > 0 {
        Some(t)
    } else {
        None
    }
}

/// A title without the numbering prefix `20 Things #` or `Monstrous Lair #`.
pub open spec fn strip_numbering(t: Seq<char>) -> Seq<char> {
    if starts_with(t, "20 Things #"@) {
        trim(t.subrange("20 Things #"@.len() as int, t.len() as int))
    } else if starts_with(t, "Monstrous Lair #"@) {
        trim(t.subrange("Monstrous Lair #"@.len() as int, t.len() as int))
    } else {
        t
    }
}

/// The title named on a license line `<prefix>#NN: <title>. ©` that starts
/// at the newline at index `p` of `s`.
pub open spec fn license_name_at(s: Seq<char>, p: int) -> Option<Seq<char>> {
    let q = p + 1 + lead_other(s.subrange(p + 1, s.len() as int), '#');
    let a = q + 4;
    let b = a + lead_space(s.subrange(a, s.len() as int));
    let d = a + lead_other(s.subrange(a, s.len() as int), '.');
    let e = d + 1 + lead_space(s.subrange(d + 1, s.len() as int));
    let c = if b < d {
        b
    } else {
        d - 1
    };
    if q >= p + 2 && q + 3 < s.len() && is_digit(s[q + 1]) && is_digit(s[q + 2]) && s[q + 3]
        == ':' && d < s.len() && e < s.len() && s[e] == '©' && a <= c {
        Some(s.subrange(c, d))
    } else {
        None
    }
}

/// The title named on the first license line at or after index `p`.
pub open spec fn license_name_from(s: Seq<char>, p: int) -> Option<Seq<char>>
    decreases s.len() - p,
{
    if p < 0 || p >= s.len() {
        None
    } else if s[p] == '\n' && license_name_at(s, p) is Some {
        license_name_at(s, p)
    } else {
        license_name_from(s, p + 1)
    }
}

/// The title of document `s`: the header's text without its numbering
/// prefix and colons; where that is the placeholder `Name`, the title named
/// on a license line of the document, if any, without its colons.
pub open spec fn title_of(s: Seq<char>) -> Option<Seq<char>> {
    match header_title(s) {
        None => None,
        Some(h) => {
            let t = drop_colons(strip_numbering(h));
            if t == "Name"@ {
                match license_name_from(s, 0) {
                    Some(b) => Some(drop_colons(b)),
                    None => Some(t),
                }
            } else {
                Some(t)
            }
        },
    }
}

/// Whether a newline at index `p` of `s` opens a subordinate header: one or
/// more `#`, then white space.
pub open spec fn is_subhead_at(s: Seq<char>, p: int) -> bool {
    let h = lead_run(s.subrange(p + 1, s.len() as int), '#');
    &&& 0 <= p < s.len()
    &&& s[p] == '\n'
    &&& h >= 1
    &&& p + 1 + h < s.len()
    &&& white_space(s[p + 1 + h])
}

/// The index of the first subordinate header at or after `p`, or the
/// length of `s` where there is none.
pub open spec fn first_subhead(s: Seq<char>, p: int) -> int
    decreases s.len() - p,
{
    if p < 0 || p >= s.len() {
        s.len() as int
    } else if is_subhead_at(s, p) {
        p
    } else {
        first_subhead(s, p + 1)
    }
}

/// What lies between the first line and the first subordinate header.
pub open spec fn prologue_region(s: Seq<char>) -> Seq<char> {
    let n = lead_other(s, '\n') as int;
    if n >= s.len() {
        seq![]
    } else {
        let p = first_subhead(s, n);
        if p > n {
            s.subrange(n + 1, p)
        } else {
            seq![]
        }
    }
}

/// What follows the prologue: everything from the first subordinate header
/// on, with its newline; empty where there is none.
pub open spec fn body_of(s: Seq<char>) -> Seq<char> {
    let n = lead_other(s, '\n') as int;
    if n >= s.len() {
        seq![]
    } else {
        s.subrange(first_subhead(s, n), s.len() as int)
    }
}

/// Whether `line` starts with the word `w`: `w`, then no word character.
pub open spec fn starts_with_word(line: Seq<char>, w: Seq<char>) -> bool {
    starts_with(line, w) && (line.len() == w.len() || !word_char(line[w.len() as int]))
}

/// Whether `line` holds the copyright mark `©`.
pub open spec fn has_copyright(line: Seq<char>) -> bool {
    exists|i: int| 0 <= i < line.len() && line[i] == '©'
}

/// Whether `line` is a license line: it holds `©`, or opens with the word
/// `OGL` or with `Include OGL`.
pub open spec fn is_license_line(line: Seq<char>) -> bool {
    has_copyright(line) || starts_with_word(line, "OGL"@) || starts_with_word(
        line,
        "Include OGL"@,
    )
}

/// The license lines of `r`, each with a newline after it.
pub open spec fn license_lines(r: Seq<char>) -> Seq<char>
    decreases r.len(),
{
    let n = lead_other(r, '\n') as int;
    let line = r.subrange(0, n);
    let kept = if is_license_line(line) {
        line.push('\n')
    } else {
        seq![]
    };
    if n < r.len() {
        kept + license_lines(r.subrange(n + 1, r.len() as int))
    } else {
        kept
    }
}

/// A document split into its title, its license prologue and its body.
pub open spec fn segmentation(s: Seq<char>) -> Result<
    (Seq<char>, Seq<char>, Seq<char>),
    DreadError,
> {
    match title_of(s) {
        None => Err(DreadError::NotAHeader),
        Some(t) => {
            let p = license_lines(prologue_region(s));
            if p.len() == 0 {
                Err(DreadError::NoLicenseLine)
            } else {
                Ok((t, p, body_of(s)))
            }
        },
    }
}

/// Appends `cs[from..to]` without its colons.
fn push_without_colons(out: &mut String, cs: &Vec<char>, from: usize, to: usize)
    requires
        from <= to <= cs@.len(),
    ensures
        final(out)@ == old(out)@ + drop_colons(cs@.subrange(from as int, to as int)),
{
    let mut i = from;
    proof {
        assert(old(out)@ + drop_colons(cs@.subrange(from as int, from as int)) =~= old(out)@);
    }
    while i < to
        invariant
            from <= i <= to <= cs@.len(),
            out@ == old(out)@ + drop_colons(cs@.subrange(from as int, i as int)),
        decreases to - i,
    {
        proof {
            assert(cs@.subrange(from as int, i + 1).drop_last() =~= cs@.subrange(
                from as int,
                i as int,
            ));
        }
        if cs[i] != ':' {
            push_char(out, cs[i]);
        }
        i = i + 1;
        proof {
            assert(out@ =~= old(out)@ + drop_colons(cs@.subrange(from as int, i as int)));
        }
    }
}

/// The bounds of the header text on the first line.
fn header_bounds(cs: &Vec<char>) -> (r: Option<(usize, usize)>)
    ensures
        match r {
            Some((a, b)) => a <= b <= cs@.len() && header_title(cs@) == Some(
                cs@.subrange(a as int, b as int),
            ),
            None => header_title(cs@) is None,
        },
{
    let len = cs.len();
    let n = count_until(cs, 0, len, '\n');
    let h = count_run(cs, 0, n, '#');
    proof {
        assert(cs@.subrange(0, len as int) =~= cs@);
        let line = cs@.subrange(0, n as int);
        assert(line.subrange(h as int, line.len() as int) =~= cs@.subrange(h as int, n as int));
    }
    if h >= 1 && h < n && is_space(cs[h]) {
        let (a, b) = trim_bounds(cs, h, n);
        if a < b {
            return Some((a, b));
        }
    }
    None
}

/// The bounds of `cs[from..to]` without its numbering prefix.
fn numbering_stripped(cs: &Vec<char>, from: usize, to: usize) -> (r: (usize, usize))
    requires
        from <= to <= cs@.len(),
    ensures
        r.0 <= r.1 <= cs@.len(),
        cs@.subrange(r.0 as int, r.1 as int) == strip_numbering(
            cs@.subrange(from as int, to as int),
        ),
{
    let ghost t = cs@.subrange(from as int, to as int);
    if starts_with_at(cs, from, to, "20 Things #") {
        let k = "20 Things #".unicode_len();
        proof {
            assert(t.subrange(0, k as int) =~= cs@.subrange(from as int, from + k));
            assert(t.subrange(k as int, t.len() as int) =~= cs@.subrange(from + k, to as int));
        }
        return trim_bounds(cs, from + k, to);
    }
    proof {
        let k = "20 Things #"@.len();
        if k <= t.len() {
            assert(t.subrange(0, k as int) =~= cs@.subrange(from as int, from + k));
        }
    }
    if starts_with_at(cs, from, to, "Monstrous Lair #") {
        let k = "Monstrous Lair #".unicode_len();
        proof {
            assert(t.subrange(0, k as int) =~= cs@.subrange(from as int, from + k));
            assert(t.subrange(k as int, t.len() as int) =~= cs@.subrange(from + k, to as int));
        }
        return trim_bounds(cs, from + k, to);
    }
    proof {
        let k = "Monstrous Lair #"@.len();
        if k <= t.len() {
            assert(t.subrange(0, k as int) =~= cs@.subrange(from as int, from + k));
        }
    }
    (from, to)
}

fn is_ascii_digit(c: char) -> (r: bool)
    ensures
        r == is_digit(c),
{
    '0' <= c && c <= '9'
}

/// The bounds of the title on a license line opening at the newline `p`.
fn license_name_at_index(cs: &Vec<char>, p: usize) -> (r: Option<(usize, usize)>)
    requires
        p < cs@.len(),
    ensures
        match r {
            Some((c, d)) => c <= d <= cs@.len() && license_name_at(cs@, p as int) == Some(
                cs@.subrange(c as int, d as int),
            ),
            None => license_name_at(cs@, p as int) is None,
        },
{
    let len = cs.len();
    let q = p + 1 + count_until(cs, p + 1, len, '#');
    if !(q - p >= 2 && q < len && len - q > 3) {
        return None;
    }
    if !(is_ascii_digit(cs[q + 1]) && is_ascii_digit(cs[q + 2]) && cs[q + 3] == ':') {
        return None;
    }
    let a = q + 4;
    let b = a + count_space(cs, a, len);
    let d = a + count_until(cs, a, len, '.');
    if d >= len {
        return None;
    }
    let e = d + 1 + count_space(cs, d + 1, len);
    if e >= len || cs[e] != '©' {
        return None;
    }
    let c = if b < d {
        b
    } else {
        d - 1
    };
    if a > c {
        return None;
    }
    Some((c, d))
}

/// The bounds of the title on the first license line that names one.
fn license_name(cs: &Vec<char>) -> (r: Option<(usize, usize)>)
    ensures
        match r {
            Some((c, d)) => c <= d <= cs@.len() && license_name_from(cs@, 0) == Some(
                cs@.subrange(c as int, d as int),
            ),
            None => license_name_from(cs@, 0) is None,
        },
{
    let mut p: usize = 0;
    while p < cs.len()
        invariant
            p <= cs@.len(),
            license_name_from(cs@, 0) == license_name_from(cs@, p as int),
        decreases cs@.len() - p,
    {
        if cs[p] == '\n' {
            match license_name_at_index(cs, p) {
                Some(x) => {
                    return Some(x);
                },
                None => {},
            }
        }
        p = p + 1;
    }
    None
}

/// The title of the document `cs`.
fn title_in(cs: &Vec<char>) -> (r: Result<String, DreadError>)
    ensures
        match r {
            Ok(t) => title_of(cs@) == Some(t@),
            Err(e) => e == DreadError::NotAHeader && title_of(cs@) is None,
        },
{
    match header_bounds(cs) {
        None => Err(DreadError::NotAHeader),
        Some((a, b)) => {
            let (a2, b2) = numbering_stripped(cs, a, b);
            let mut t = String::new();
            push_without_colons(&mut t, cs, a2, b2);
            let placeholder = String::from_str("Name");
            if t == placeholder {
                match license_name(cs) {
                    Some((c, d)) => {
                        let mut u = String::new();
                        push_without_colons(&mut u, cs, c, d);
                        proof {
                            assert(u@ =~= drop_colons(cs@.subrange(c as int, d as int)));
                        }
                        return Ok(u);
                    },
                    None => {},
                }
            }
            proof {
                assert(t@ =~= drop_colons(cs@.subrange(a2 as int, b2 as int)));
            }
            Ok(t)
        },
    }
}

/// The index of the first subordinate header at or after `from`.
fn find_subhead(cs: &Vec<char>, from: usize) -> (r: usize)
    requires
        from <= cs@.len(),
    ensures
        r as int == first_subhead(cs@, from as int),
        from <= r <= cs@.len(),
{
    let len = cs.len();
    let mut p = from;
    while p < len
        invariant
            from <= p <= len == cs@.len(),
            first_subhead(cs@, from as int) == first_subhead(cs@, p as int),
        decreases len - p,
    {
        if cs[p] == '\n' {
            let h = count_run(cs, p + 1, len, '#');
            if h >= 1 && p + 1 + h < len && is_space(cs[p + 1 + h]) {
                return p;
            }
        }
        p = p + 1;
    }
    p
}

/// Whether `cs[from..to]` holds `©`.
fn holds_copyright(cs: &Vec<char>, from: usize, to: usize) -> (r: bool)
    requires
        from <= to <= cs@.len(),
    ensures
        r == has_copyright(cs@.subrange(from as int, to as int)),
{
    let ghost line = cs@.subrange(from as int, to as int);
    let mut i = from;
    while i < to
        invariant
            from <= i <= to <= cs@.len(),
            line == cs@.subrange(from as int, to as int),
            forall|j: int| 0 <= j < i - from ==> line[j] != '©',
        decreases to - i,
    {
        if cs[i] == '©' {
            proof {
                assert(line[i - from] == '©');
            }
            return true;
        }
        i = i + 1;
    }
    false
}

/// Whether `cs[from..to]` opens with the word `w`.
fn opens_with_word(cs: &Vec<char>, from: usize, to: usize, w: &str) -> (r: bool)
    requires
        from <= to <= cs@.len(),
    ensures
        r == starts_with_word(cs@.subrange(from as int, to as int), w@),
{
    let ghost line = cs@.subrange(from as int, to as int);
    if !starts_with_at(cs, from, to, w) {
        proof {
            if w@.len() <= line.len() {
                assert(line.subrange(0, w@.len() as int) =~= cs@.subrange(
                    from as int,
                    from + w@.len(),
                ));
            }
        }
        return false;
    }
    let k = w.unicode_len();
    proof {
        assert(line.subrange(0, w@.len() as int) =~= cs@.subrange(from as int, from + w@.len()));
    }
    from + k == to || !is_word(cs[from + k])
}

/// Whether `cs[from..to]` is a license line.
fn license_line(cs: &Vec<char>, from: usize, to: usize) -> (r: bool)
    requires
        from <= to <= cs@.len(),
    ensures
        r == is_license_line(cs@.subrange(from as int, to as int)),
{
    holds_copyright(cs, from, to) || opens_with_word(cs, from, to, "OGL") || opens_with_word(
        cs,
        from,
        to,
        "Include OGL",
    )
}

/// The license lines of `cs[from..to]`, each with a newline after it.
fn license_lines_in(cs: &Vec<char>, from: usize, to: usize) -> (r: String)
    requires
        from <= to <= cs@.len(),
    ensures
        r@ == license_lines(cs@.subrange(from as int, to as int)),
{
    let mut out = String::new();
    let mut i = from;
    let mut more = true;
    while more
        invariant
            from <= i <= to <= cs@.len(),
            more ==> out@ + license_lines(cs@.subrange(i as int, to as int)) == license_lines(
                cs@.subrange(from as int, to as int),
            ),
            !more ==> out@ == license_lines(cs@.subrange(from as int, to as int)),
        decreases to - i + (if more {
            1int
        } else {
            0int
        }),
    {
        let m = count_until(cs, i, to, '\n');
        let ghost r = cs@.subrange(i as int, to as int);
        let ghost before = out@;
        proof {
            assert(r.subrange(0, m as int) =~= cs@.subrange(i as int, i + m));
        }
        if license_line(cs, i, i + m) {
            push_range(&mut out, cs, i, i + m);
            push_char(&mut out, '\n');
        }
        if i + m < to {
            proof {
                assert(r.subrange(m + 1, r.len() as int) =~= cs@.subrange(i + m + 1, to as int));
                assert(before + license_lines(r) =~= out@ + license_lines(
                    cs@.subrange(i + m + 1, to as int),
                ));
            }
            i = i + m + 1;
        } else {
            proof {
                assert(before + license_lines(r) =~= out@);
            }
            more = false;
        }
    }
    out
}

/// Splits the document `contents` into its title, its license prologue and
/// its body. The title comes from the header on the first line; the
/// prologue keeps, each with a newline, the lines between the first line and
/// the first subordinate header that hold `©` or open with the word `OGL` or
/// `Include OGL`; the body is the rest from that header on, or empty.
pub fn subdivide<'a>(contents: &'a str) -> (r: Result<(String, String, &'a str), DreadError>)
    ensures
        match r {
            Ok((t, p, b)) => segmentation(contents@) == Ok::<
                (Seq<char>, Seq<char>, Seq<char>),
                DreadError,
            >((t@, p@, b@)),
            Err(e) => segmentation(contents@) == Err::<(Seq<char>, Seq<char>, Seq<char>), DreadError>(
                e,
            ),
        },
{
    let cs = chars_of(contents);
    let t = match title_in(&cs) {
        Ok(t) => t,
        Err(e) => {
            return Err(e);
        },
    };
    let len = cs.len();
    let n = count_until(&cs, 0, len, '\n');
    proof {
        assert(cs@.subrange(0, len as int) =~= cs@);
    }
    if n == len {
        proof {
            reveal_strlit("OGL");
            reveal_strlit("Include OGL");
            let e = Seq::<char>::empty();
            assert(e.subrange(0, 0) =~= e);
            assert(!is_license_line(e));
            assert(license_lines(e) =~= e);
        }
        return Err(DreadError::NoLicenseLine);
    }
    let p = find_subhead(&cs, n);
    let prologue = if p > n {
        license_lines_in(&cs, n + 1, p)
    } else {
        proof {
            assert(cs@.subrange(p as int, p as int) =~= Seq::<char>::empty());
        }
        license_lines_in(&cs, p, p)
    };
    if prologue.as_str().is_empty() {
        return Err(DreadError::NoLicenseLine);
    }
    let body = contents.substring_char(p, len);
    Ok((t, prologue, body))
}

/// The title of `contents`, a document whose first line is a Markdown
/// header.
pub fn embedded_file_name(contents: &str) -> (r: Result<String, DreadError>)
    ensures
        match r {
            Ok(t) => title_of(contents@) == Some(t@),
            Err(e) => e == DreadError::NotAHeader && title_of(contents@) is None,
        },
{
    let cs = chars_of(contents);
    title_in(&cs)
}

} // verus!
