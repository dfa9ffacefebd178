//! Anchors (block labels derived from header text) and the roll-trigger line
//! that refers to them.

use vstd::prelude::*;
use crate::text::{chars_of, is_word, word_char};

verus! {

/// What `str::to_lowercase` returns for a string with these characters.
pub uninterp spec fn lower_of(s: Seq<char>) -> Seq<char>;

/// Relies on `str::to_lowercase`: the Unicode lowercase form of `s`, which
/// depends on its characters alone.
#[verifier::external_body]
fn lowercase(s: &str) -> (r: String)
    ensures
        r@ == lower_of(s@),
{
    s.to_lowercase()
}

/// The word runs of `s` (maximal runs of word characters), in order, joined
/// by single hyphens. Whatever is not a word character only separates runs.
pub open spec fn hyphenated(s: Seq<char>) -> Seq<char>
    decreases s.len(),
{
    if s.len() == 0 {
        seq![]
    } else {
        let p = hyphenated(s.drop_last());
        let c = s.last();
        if !word_char(c) {
            p
        } else if s.len() >= 2 && !word_char(s[s.len() - 2]) && p.len() > 0 {
            p.push('-').push(c)
        } else {
            p.push(c)
        }
    }
}

/// The anchor of a header line: `^` followed by its hyphenated word runs,
/// lower-cased.
pub open spec fn slug(header: Seq<char>) -> Seq<char> {
    lower_of(seq!['^'] + hyphenated(header))
}

/// The anchor of `header`: its word runs joined by hyphens, after a `^`,
/// in lower case. Punctuation and spacing at either end leave no hyphen.
pub fn make_link(header: &str) -> (r: String)
    ensures
        r@ == slug(header@),
{
    let cs = chars_of(header);
    let mut raw = String::from_str("^");
    proof {
        reveal_strlit("^");
    }
    let mut any_word = false;
    let mut prev_word = false;
    let mut i: usize = 0;
    while i < cs.len()
        invariant
            i <= cs@.len(),
            cs@ == header@,
            raw@ == seq!['^'] + hyphenated(cs@.take(i as int)),
            any_word == (hyphenated(cs@.take(i as int)).len() > 0),
            i > 0 ==> prev_word == word_char(cs@[i - 1]),
        decreases cs@.len() - i,
    {
        let c = cs[i];
        let w = is_word(c);
        proof {
            assert(cs@.take(i + 1).drop_last() =~= cs@.take(i as int));
        }
        if w {
            if i >= 1 && !prev_word && any_word {
                crate::text::push_char(&mut raw, '-');
            }
            crate::text::push_char(&mut raw, c);
            any_word = true;
        }
        prev_word = w;
        i = i + 1;
        proof {
            assert(raw@ =~= seq!['^'] + hyphenated(cs@.take(i as int)));
        }
    }
    proof {
        assert(cs@.take(i as int) =~= header@);
    }
    lowercase(raw.as_str())
}

/// The roll-trigger line that sends a dice roller to `link` in note `name`.
pub open spec fn dice_line(name: Seq<char>, link: Seq<char>) -> Seq<char> {
    "\n`dice: [["@ + name + "#"@ + link + "]]`\n"@
}

/// The roll-trigger line: ``\n`dice: [[<name>#<link>]]`\n``.
pub fn dice_code(name: &str, link: &str) -> (r: String)
    ensures
        r@ == dice_line(name@, link@),
{
    let mut r = String::from_str("\n`dice: [[");
    r.append(name);
    r.append("#");
    r.append(link);
    r.append("]]`\n");
    r
}

} // verus!
