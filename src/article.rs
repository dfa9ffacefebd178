//! Decisions about whole articles: their numbers and note names, one
//! special-cased article, and what the read-me note needs from them.

use vstd::prelude::*;
use vstd::utf8::encode_utf8;
use crate::segment::{lemma_starts_with_at, starts_with};
use crate::table::{decimal, push_decimal};
use crate::text::{
    chars_of, count_digits, count_space, count_until, is_digit, is_space, lead_digits, lead_other,
    lead_space, push_char, push_range, starts_with_at, white_space,
};

verus! {

/// The value of the ASCII digits `s`.
pub open spec fn digits_value(s: Seq<char>) -> nat
    decreases s.len(),
{
    if s.len() == 0 {
        0
    } else {
        digits_value(s.drop_last()) * 10 + (s.last() as nat - '0' as nat) as nat
    }
}

/// Whether `c` separates an article's number from its title.
pub open spec fn is_separator(c: char) -> bool {
    white_space(c) || c == '_'
}

/// The number of separators at the start of `s`.
pub open spec fn lead_separators(s: Seq<char>) -> nat
    decreases s.len(),
{
    if s.len() > 0 && is_separator(s[0]) {
        1 + lead_separators(s.drop_first())
    } else {
        0
    }
}

/// An article name split into its leading number, if any, and its title:
/// what follows the number and any white space or underscores. A name
/// whose title would span lines is kept whole, with no number.
pub open spec fn number_and_title(s: Seq<char>) -> (Option<nat>, Seq<char>) {
    let d: int = lead_digits(s) as int;
    let w: int = lead_separators(s.subrange(d, s.len() as int)) as int;
    let rest = s.subrange(d + w, s.len() as int);
    if lead_other(rest, '\n') < rest.len() {
        (None, s)
    } else if d == 0 {
        (None, rest)
    } else {
        (Some(digits_value(s.subrange(0, d))), rest)
    }
}

fn count_separators(cs: &Vec<char>, from: usize, to: usize) -> (r: usize)
    requires
        from <= to <= cs@.len(),
    ensures
        r == lead_separators(cs@.subrange(from as int, to as int)),
        from + r <= to,
{
    let mut i = from;
    while i < to && (is_space(cs[i]) || cs[i] == '_')
        invariant
            from <= i <= to <= cs@.len(),
            lead_separators(cs@.subrange(from as int, to as int)) == (i - from) + lead_separators(
                cs@.subrange(i as int, to as int),
            ),
        decreases to - i,
    {
        proof {
            assert(cs@.subrange(i as int, to as int).drop_first() =~= cs@.subrange(
                i + 1,
                to as int,
            ));
        }
        i = i + 1;
    }
    i - from
}

/// The value of the digits `cs[0..d]`, or `None` where it exceeds `u32`.
fn digits_to_u32(cs: &Vec<char>, d: usize) -> (r: Option<u32>)
    requires
        d <= cs@.len(),
        forall|i: int| 0 <= i < d ==> is_digit(#[trigger] cs@[i]),
    ensures
        match r {
            Some(v) => v as nat == digits_value(cs@.subrange(0, d as int)),
            None => digits_value(cs@.subrange(0, d as int)) > u32::MAX,
        },
{
    let mut v: u64 = 0;
    let mut i: usize = 0;
    while i < d
        invariant
            i <= d <= cs@.len(),
            forall|j: int| 0 <= j < d ==> is_digit(#[trigger] cs@[j]),
            v as nat == digits_value(cs@.subrange(0, i as int)),
            v <= u32::MAX,
        decreases d - i,
    {
        let c = cs[i];
        assert(is_digit(cs@[i as int]));
        let dig = (c as u32 - '0' as u32) as u64;
        proof {
            assert(cs@.subrange(0, i + 1).drop_last() =~= cs@.subrange(0, i as int));
        }
        let next = v * 10 + dig;
        if next > u32::MAX as u64 {
            proof {
                lemma_digits_value_grows(cs@.subrange(0, d as int), i + 1);
                assert(cs@.subrange(0, d as int).subrange(0, i + 1) =~= cs@.subrange(0, i + 1));
            }
            return None;
        }
        v = next;
        i = i + 1;
    }
    Some(v as u32)
}

/// A longer run of digits has no smaller value.
proof fn lemma_digits_value_grows(s: Seq<char>, k: int)
    requires
        0 <= k <= s.len(),
    ensures
        digits_value(s.subrange(0, k)) <= digits_value(s),
    decreases s.len() - k,
{
    if k < s.len() {
        lemma_digits_value_grows(s, k + 1);
        assert(s.subrange(0, k + 1).drop_last() =~= s.subrange(0, k));
    } else {
        assert(s.subrange(0, k) =~= s);
    }
}

/// Splits an article name into its leading number and its title; a number
/// too large for `u32` counts as none.
pub fn number_and_title_from(name: &str) -> (r: (Option<u32>, String))
    ensures
        r.1@ == number_and_title(name@).1,
        match number_and_title(name@).0 {
            Some(v) => if v <= u32::MAX {
                r.0 == Some(v as u32)
            } else {
                r.0 is None
            },
            None => r.0 is None,
        },
{
    let cs = chars_of(name);
    let len = cs.len();
    let d = count_digits(&cs, 0, len);
    let w = count_separators(&cs, d, len);
    let m = count_until(&cs, d + w, len, '\n');
    proof {
        assert(cs@.subrange(0, len as int) =~= cs@);
    }
    if d + w + m < len {
        return (None, String::from_str(name));
    }
    let mut title = String::new();
    push_range(&mut title, &cs, d + w, len);
    if d == 0 {
        return (None, title);
    }
    proof {
        assert forall|i: int| 0 <= i < d implies is_digit(#[trigger] cs@[i]) by {
            lemma_lead_digits(cs@, i);
        }
    }
    (digits_to_u32(&cs, d), title)
}

/// The first `lead_digits(s)` characters of `s` are digits.
proof fn lemma_lead_digits(s: Seq<char>, i: int)
    requires
        0 <= i < lead_digits(s),
    ensures
        i < s.len(),
        is_digit(s[i]),
    decreases s.len(),
{
    assert(s.len() > 0 && is_digit(s[0]));
    if i > 0 {
        lemma_lead_digits(s.drop_first(), i - 1);
        assert(s.drop_first()[i - 1] == s[i]);
    }
}

/// Where the list of the "Urban" article starts: the document opens with
/// `#`, white space, `71`, an optional colon and ` Urban`, and the line after
/// that one is `#ideas`, then optional white space and a `1` followed by a
/// character on the same line.
pub open spec fn urban_ideas_start(s: Seq<char>) -> Option<int> {
    let i: int = 1 + lead_space(s.subrange(1, s.len() as int)) as int;
    let j: int = if i + 2 < s.len() && s[i + 2] == ':' {
        i + 3
    } else {
        i + 2
    };
    let k: int = j + 6;
    let nl: int = k + lead_other(s.subrange(k, s.len() as int), '\n') as int;
    let m: int = nl + 7;
    let st: int = m + lead_space(s.subrange(m, s.len() as int)) as int;
    if s.len() > 1 && s[0] == '#' && i > 1 && starts_with(s.subrange(i, s.len() as int), "71"@)
        && starts_with(s.subrange(j, s.len() as int), " Urban"@) && starts_with(
        s.subrange(nl, s.len() as int),
        "\n#ideas"@,
    ) && st + 1 < s.len() && s[st] == '1' && s[st + 1] != '\n' {
        Some(st)
    } else {
        None
    }
}

/// The "Urban" article has no subordinate header before its list: it gets
/// a fixed title and a body made of an `Ideas` header and the list.
pub fn urban_idea_special_case(contents: &str) -> (r: Option<(String, String)>)
    ensures
        match r {
            Some((t, b)) => urban_ideas_start(contents@) matches Some(st) && t@ == "71 Urban Events"@
                && b@ == "\n## Ideas\n"@ + contents@.subrange(st, contents@.len() as int),
            None => urban_ideas_start(contents@) is None,
        },
{
    let cs = chars_of(contents);
    let len = cs.len();
    if !(len > 1 && cs[0] == '#') {
        return None;
    }
    let i = 1 + count_space(&cs, 1, len);
    proof {
        lemma_starts_with_at(cs@, i as int, "71"@);
    }
    if !(i > 1 && starts_with_at(&cs, i, len, "71")) {
        return None;
    }
    proof {
        reveal_strlit("71");
    }
    let j = if len - i > 2 && cs[i + 2] == ':' {
        i + 3
    } else {
        i + 2
    };
    proof {
        lemma_starts_with_at(cs@, j as int, " Urban"@);
    }
    if !starts_with_at(&cs, j, len, " Urban") {
        return None;
    }
    let k = j + " Urban".unicode_len();
    proof {
        reveal_strlit(" Urban");
    }
    let nl = k + count_until(&cs, k, len, '\n');
    proof {
        lemma_starts_with_at(cs@, nl as int, "\n#ideas"@);
    }
    if !starts_with_at(&cs, nl, len, "\n#ideas") {
        return None;
    }
    let m = nl + "\n#ideas".unicode_len();
    proof {
        reveal_strlit("\n#ideas");
    }
    let st = m + count_space(&cs, m, len);
    if !(st < len && len - st > 1 && cs[st] == '1' && cs[st + 1] != '\n') {
        return None;
    }
    let mut body = String::from_str("\n## Ideas\n");
    push_range(&mut body, &cs, st, len);
    Some((String::from_str("71 Urban Events"), body))
}

/// What an article stored under a name is for.
#[derive(Debug, Clone, Copy, PartialEq, Eq, Structural)]
pub enum ArticleRole {
    /// A stray copy of another article, skipped.
    Duplicate,
    /// The collection's own read-me, kept for the read-me note.
    OriginalReadme,
    /// An article to convert.
    Article,
}

/// The role of the article stored as `name`: a name ending in ` copy` is a
/// duplicate; `00 Read Me` is the original read-me; anything else is an
/// article.
pub open spec fn role_of(name: Seq<char>) -> ArticleRole {
    if name.len() >= 5 && name.subrange(name.len() - 5, name.len() as int) == " copy"@ {
        ArticleRole::Duplicate
    } else if name == "00 Read Me"@ {
        ArticleRole::OriginalReadme
    } else {
        ArticleRole::Article
    }
}

/// The role of the article stored as `name`.
pub fn article_role(name: &str) -> (r: ArticleRole)
    ensures
        r == role_of(name@),
{
    let cs = chars_of(name);
    let len = cs.len();
    proof {
        reveal_strlit(" copy");
        assert(cs@.subrange(0, len as int) =~= cs@);
    }
    if len >= 5 && starts_with_at(&cs, len - 5, len, " copy") {
        return ArticleRole::Duplicate;
    }
    let k = "00 Read Me".unicode_len();
    if k == len && starts_with_at(&cs, 0, len, "00 Read Me") {
        return ArticleRole::OriginalReadme;
    }
    ArticleRole::Article
}

/// The UTF-8 length of `s`, as `str::len` gives it.
pub open spec fn byte_len(s: Seq<char>) -> usize {
    encode_utf8(s).len() as usize
}

/// `n` in decimal, with a leading zero below ten.
pub open spec fn two_digits(n: nat) -> Seq<char> {
    if n < 10 {
        seq!['0'] + decimal(n)
    } else {
        decimal(n)
    }
}

/// The name of the note for the article stored as `external` whose header
/// gives `content`: its number (two digits below 100, none from 100 on),
/// then the longer of the two titles (by UTF-8 length, the stored one on a
/// tie going to the header's), except that number 12 always takes the
/// header's title. `None` where the stored name has no number that fits
/// `u32`.
pub open spec fn note_name_of(external: Seq<char>, content: Seq<char>) -> Option<Seq<char>> {
    let (num, et) = number_and_title(external);
    let ct = number_and_title(content).1;
    match num {
        Some(n) => if n <= u32::MAX {
            let desc = if n == 12 {
                ct
            } else if byte_len(et) > byte_len(ct) {
                et
            } else {
                ct
            };
            if n < 100 {
                Some(two_digits(n) + " "@ + desc)
            } else {
                Some(desc)
            }
        } else {
            None
        },
        None => None,
    }
}

/// The name of the note for the article stored as `external_name` whose
/// header gives the title `content_title`.
pub fn note_name(external_name: &str, content_title: &str) -> (r: Option<String>)
    ensures
        match r {
            Some(t) => note_name_of(external_name@, content_title@) == Some(t@),
            None => note_name_of(external_name@, content_title@) is None,
        },
{
    let (num, external_title) = number_and_title_from(external_name);
    let (_, title) = number_and_title_from(content_title);
    let n = match num {
        Some(n) => n,
        None => {
            return None;
        },
    };
    let desc = if n == 12 {
        title
    } else if external_title.as_str().len() > title.as_str().len() {
        external_title
    } else {
        title
    };
    if n < 100 {
        let mut out = String::new();
        if n < 10 {
            push_char(&mut out, '0');
        }
        push_decimal(&mut out, n as usize);
        out.append(" ");
        out.append(desc.as_str());
        proof {
            assert(out@ =~= two_digits(n as nat) + " "@ + desc@);
        }
        Some(out)
    } else {
        Some(desc)
    }
}

/// The first line at or after line start `p` that opens with
/// `Thank you to`, without its newline.
pub open spec fn thanks_from(s: Seq<char>, p: int) -> Option<Seq<char>>
    decreases s.len() - p,
{
    if p < 0 || p > s.len() {
        None
    } else {
        let n = p + lead_other(s.subrange(p, s.len() as int), '\n');
        let line = s.subrange(p, n);
        if starts_with(line, "Thank you to"@) {
            Some(line)
        } else if n < s.len() {
            thanks_from(s, n + 1)
        } else {
            None
        }
    }
}

/// Which collection the first line at or after line start `p` that opens
/// with `Monstrous Lair` or `20 Things` belongs to.
pub open spec fn nomicon_from(s: Seq<char>, p: int) -> Option<Seq<char>>
    decreases s.len() - p,
{
    if p < 0 || p > s.len() {
        None
    } else {
        let n = p + lead_other(s.subrange(p, s.len() as int), '\n');
        if starts_with(s.subrange(p, s.len() as int), "Monstrous Lair"@) {
            Some("Laironomicon"@)
        } else if starts_with(s.subrange(p, s.len() as int), "20 Things"@) {
            Some("Thingonomicon"@)
        } else if n < s.len() {
            nomicon_from(s, n + 1)
        } else {
            None
        }
    }
}

/// The view of an optional string.
pub open spec fn opt_view(o: Option<String>) -> Option<Seq<char>> {
    match o {
        Some(s) => Some(s@),
        None => None,
    }
}

/// The first thank-you line of `cs`.
fn find_thanks(cs: &Vec<char>) -> (r: Option<String>)
    ensures
        opt_view(r) == thanks_from(cs@, 0),
{
    let len = cs.len();
    let mut p: usize = 0;
    while p <= len
        invariant
            p <= len + 1,
            len == cs@.len(),
            thanks_from(cs@, 0) == thanks_from(cs@, p as int),
        decreases len + 1 - p,
    {
        let n = p + count_until(cs, p, len, '\n');
        proof {
            let k = "Thank you to"@.len();
            if k <= n - p {
                assert(cs@.subrange(p as int, n as int).subrange(0, k as int) =~= cs@.subrange(
                    p as int,
                    p + k,
                ));
            }
        }
        if starts_with_at(cs, p, n, "Thank you to") {
            let mut line = String::new();
            push_range(&mut line, cs, p, n);
            return Some(line);
        }
        if n < len {
            p = n + 1;
        } else {
            return None;
        }
    }
    None
}

/// The collection named by the first line of `cs` that says.
fn find_nomicon(cs: &Vec<char>) -> (r: Option<String>)
    ensures
        opt_view(r) == nomicon_from(cs@, 0),
{
    let len = cs.len();
    let mut p: usize = 0;
    while p <= len
        invariant
            p <= len + 1,
            len == cs@.len(),
            nomicon_from(cs@, 0) == nomicon_from(cs@, p as int),
        decreases len + 1 - p,
    {
        let n = p + count_until(cs, p, len, '\n');
        proof {
            lemma_starts_with_at(cs@, p as int, "Monstrous Lair"@);
            lemma_starts_with_at(cs@, p as int, "20 Things"@);
        }
        if starts_with_at(cs, p, len, "Monstrous Lair") {
            return Some(String::from_str("Laironomicon"));
        }
        if starts_with_at(cs, p, len, "20 Things") {
            return Some(String::from_str("Thingonomicon"));
        }
        if n < len {
            p = n + 1;
        } else {
            return None;
        }
    }
    None
}

/// What the read-me note says: the collection, its thank-you line, and the
/// original read-me, if any, set apart.
pub struct ReadmeContext {
    pub nomicon: String,
    pub thank_you: String,
    pub original_readme: String,
}

/// What the articles have told about the collection so far.
#[derive(Default)]
pub struct ReadmeInfo {
    nomicon: Option<String>,
    thank_you: Option<String>,
    original_readme: Option<String>,
}

impl ReadmeInfo {
    /// The collection, once an article has named it.
    pub closed spec fn nomicon_seen(&self) -> Option<Seq<char>> {
        opt_view(self.nomicon)
    }

    /// The first thank-you line found.
    pub closed spec fn thanks_seen(&self) -> Option<Seq<char>> {
        opt_view(self.thank_you)
    }

    /// The original read-me, once saved.
    pub closed spec fn original(&self) -> Option<Seq<char>> {
        opt_view(self.original_readme)
    }

    /// Nothing known yet.
    pub fn new() -> (r: Self)
        ensures
            r.nomicon_seen() is None,
            r.thanks_seen() is None,
            r.original() is None,
    {
        ReadmeInfo { nomicon: None, thank_you: None, original_readme: None }
    }

    /// Keeps the collection's own read-me.
    pub fn save_original_readme(&mut self, original: String)
        ensures
            final(self).original() == Some(original@),
            final(self).nomicon_seen() == old(self).nomicon_seen(),
            final(self).thanks_seen() == old(self).thanks_seen(),
    {
        self.original_readme = Some(original);
    }

    /// Learns from `article` what is not known yet: the first line that
    /// opens with `Thank you to`, and the collection that a line opening
    /// with `Monstrous Lair` or `20 Things` names.
    pub fn update_from_article(&mut self, article: &str)
        ensures
            final(self).original() == old(self).original(),
            final(self).thanks_seen() == match old(self).thanks_seen() {
                Some(t) => Some(t),
                None => thanks_from(article@, 0),
            },
            final(self).nomicon_seen() == match old(self).nomicon_seen() {
                Some(t) => Some(t),
                None => nomicon_from(article@, 0),
            },
    {
        let cs = chars_of(article);
        if self.thank_you.is_none() {
            self.thank_you = find_thanks(&cs);
        }
        if self.nomicon.is_none() {
            self.nomicon = find_nomicon(&cs);
        }
    }

    /// What the read-me note says, once both the collection and a
    /// thank-you line are known.
    pub fn context(&self) -> (r: Option<ReadmeContext>)
        ensures
            match r {
                Some(c) => {
                    &&& self.nomicon_seen() == Some(c.nomicon@)
                    &&& self.thanks_seen() == Some(c.thank_you@)
                    &&& c.original_readme@ == match self.original() {
                        Some(o) => "\n\n-----\n\nHere is the original Read Me\n\n"@ + o,
                        None => Seq::<char>::empty(),
                    }
                },
                None => self.nomicon_seen() is None || self.thanks_seen() is None,
            },
    {
        let (nomicon, thank_you) = match (&self.nomicon, &self.thank_you) {
            (Some(n), Some(t)) => (n.clone(), t.clone()),
            _ => {
                return None;
            },
        };
        let original_readme = match &self.original_readme {
            Some(o) => {
                let mut s = String::from_str("\n\n-----\n\nHere is the original Read Me\n\n");
                s.append(o.as_str());
                s
            },
            None => String::new(),
        };
        Some(ReadmeContext { nomicon, thank_you, original_readme })
    }
}

} // verus!
