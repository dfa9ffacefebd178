//! The transformer: one left-to-right scan over the lines of a body that
//! turns each run of list items into a roll-trigger line, a table and an
//! anchor label.

use vstd::prelude::*;
use crate::anchor::{dice_code, dice_line, make_link, slug};
use crate::error::DreadError;
use crate::table::{is_list_item, list_to_table, table, views};
use crate::text::{chars_of, count_digits, count_run, count_until, lead_other, lead_run, push_char};

verus! {

/// The kind of a line, decided by its own leading characters alone.
#[derive(Debug, Clone, Copy, PartialEq, Eq, Structural)]
pub enum LineKind {
    /// Digits, then `.`.
    ListItem,
    /// One or more `#`, then a space.
    Header,
    /// Anything else.
    Vanilla,
}

/// Whether `line` (with its leading newline) is a Markdown header.
pub open spec fn is_header(line: Seq<char>) -> bool {
    &&& line.len() > 0
    &&& line[0] == '\n'
    &&& lead_run(line.drop_first(), '#') >= 1
    &&& lead_run(line.drop_first(), '#') + 1 < line.len()
    &&& line[lead_run(line.drop_first(), '#') + 1int] == ' '
}

/// The kind of `line`, a line with its leading newline.
pub open spec fn kind_of(line: Seq<char>) -> LineKind {
    if is_list_item(line) {
        LineKind::ListItem
    } else if is_header(line) {
        LineKind::Header
    } else {
        LineKind::Vanilla
    }
}

/// The lines of `s`, each with the newline that opens it: `s` cut before
/// every newline but one at its very start.
pub open spec fn lines(s: Seq<char>) -> Seq<Seq<char>>
    decreases s.len(),
{
    if s.len() == 0 {
        seq![]
    } else {
        let e: int = 1 + lead_other(s.drop_first(), '\n') as int;
        if e <= s.len() {
            seq![s.subrange(0, e)] + lines(s.subrange(e, s.len() as int))
        } else {
            seq![]
        }
    }
}

/// A maximal sequence of consecutive lines of one kind.
pub struct Run {
    pub kind: LineKind,
    pub lines: Seq<Seq<char>>,
}

/// `ls` grouped into runs, in order.
pub open spec fn runs(ls: Seq<Seq<char>>) -> Seq<Run>
    decreases ls.len(),
{
    if ls.len() == 0 {
        seq![]
    } else {
        let r = runs(ls.drop_last());
        let l = ls.last();
        let k = kind_of(l);
        if r.len() > 0 && r.last().kind == k {
            r.update(r.len() - 1, Run { kind: k, lines: r.last().lines.push(l) })
        } else {
            r.push(Run { kind: k, lines: seq![l] })
        }
    }
}

/// The anchor in force after the runs `rs`: that of the first line of the
/// last header run, or `^START` where there is none.
pub open spec fn anchor_after(rs: Seq<Run>) -> Seq<char>
    decreases rs.len(),
{
    if rs.len() == 0 {
        "^START"@
    } else if rs.last().kind == LineKind::Header {
        slug(rs.last().lines[0])
    } else {
        anchor_after(rs.drop_last())
    }
}

/// The kind of the last run, `Vanilla` before any.
pub open spec fn last_kind(rs: Seq<Run>) -> LineKind {
    if rs.len() == 0 {
        LineKind::Vanilla
    } else {
        rs.last().kind
    }
}

/// `t` set apart by blank lines.
pub open spec fn paragraph(t: Seq<char>) -> Seq<char> {
    "\n\n"@ + t + "\n\n"@
}

/// The concatenation of `ls`.
pub open spec fn concat(ls: Seq<Seq<char>>) -> Seq<char>
    decreases ls.len(),
{
    if ls.len() == 0 {
        seq![]
    } else {
        concat(ls.drop_last()) + ls.last()
    }
}

/// What a run becomes when `anchor` is in force: a list run becomes the
/// roll-trigger line, its table and the anchor label; any other run stays
/// as it is.
pub open spec fn run_text(title: Seq<char>, run: Run, anchor: Seq<char>) -> Seq<char> {
    if run.kind == LineKind::ListItem {
        paragraph(dice_line(title, anchor)) + table(run.lines) + paragraph(anchor)
    } else {
        concat(run.lines)
    }
}

/// The text of the runs `rs`, before blank lines are collapsed.
pub open spec fn rendered(title: Seq<char>, rs: Seq<Run>) -> Seq<char>
    decreases rs.len(),
{
    if rs.len() == 0 {
        seq![]
    } else {
        rendered(title, rs.drop_last()) + run_text(title, rs.last(), anchor_after(rs.drop_last()))
    }
}

/// `s` with every run of three or more newlines cut to two: a newline is
/// dropped where the text kept so far already ends in two.
pub open spec fn collapse(s: Seq<char>) -> Seq<char>
    decreases s.len(),
{
    if s.len() == 0 {
        seq![]
    } else {
        let c = collapse(s.drop_last());
        if s.last() == '\n' && c.len() >= 2 && c[c.len() - 1] == '\n' && c[c.len() - 2] == '\n' {
            c
        } else {
            c.push(s.last())
        }
    }
}

/// The output for `body` under `title`.
pub open spec fn transformed(title: Seq<char>, body: Seq<char>) -> Seq<char> {
    collapse(rendered(title, runs(lines(body))))
}

/// The state of a chapter once the runs `rs` have been read: a list run
/// still open has its roll-trigger line written and its items pending.
pub open spec fn scanned(
    title: Seq<char>,
    written: Seq<char>,
    items: Seq<Seq<char>>,
    anchor: Seq<char>,
    rs: Seq<Run>,
) -> bool {
    &&& anchor == anchor_after(rs)
    &&& if last_kind(rs) == LineKind::ListItem {
        &&& written == rendered(title, rs.drop_last()) + paragraph(dice_line(title, anchor))
        &&& items == rs.last().lines
        &&& items.len() > 0
    } else {
        &&& written == rendered(title, rs)
        &&& items.len() == 0
    }
}

proof fn lemma_concat_push(ls: Seq<Seq<char>>, l: Seq<char>)
    ensures
        concat(ls.push(l)) == concat(ls) + l,
{
    assert(ls.push(l).drop_last() =~= ls);
}

proof fn lemma_runs_push(ls: Seq<Seq<char>>, l: Seq<char>)
    ensures
        runs(ls.push(l)) == ({
            let r = runs(ls);
            let k = kind_of(l);
            if r.len() > 0 && r.last().kind == k {
                r.update(r.len() - 1, Run { kind: k, lines: r.last().lines.push(l) })
            } else {
                r.push(Run { kind: k, lines: seq![l] })
            }
        }),
{
    assert(ls.push(l).drop_last() =~= ls);
}

/// Every run holds at least one line.
pub proof fn lemma_runs_nonempty(ls: Seq<Seq<char>>)
    ensures
        forall|i: int| 0 <= i < runs(ls).len() ==> (#[trigger] runs(ls)[i]).lines.len() > 0,
    decreases ls.len(),
{
    if ls.len() > 0 {
        lemma_runs_nonempty(ls.drop_last());
    }
}

/// Closing a list run appends its trigger line, table and label.
proof fn lemma_close_list(title: Seq<char>, rs: Seq<Run>)
    requires
        last_kind(rs) == LineKind::ListItem,
    ensures
        anchor_after(rs) == anchor_after(rs.drop_last()),
        rendered(title, rs) == rendered(title, rs.drop_last()) + paragraph(
            dice_line(title, anchor_after(rs)),
        ) + table(rs.last().lines) + paragraph(anchor_after(rs)),
{
    let a = anchor_after(rs);
    assert(rendered(title, rs) =~= rendered(title, rs.drop_last()) + paragraph(dice_line(title, a))
        + table(rs.last().lines) + paragraph(a));
}

/// One more line read: how the runs, their anchor and their text move on.
proof fn lemma_scan_step(title: Seq<char>, rs: Seq<Run>, l: Seq<char>)
    requires
        forall|i: int| 0 <= i < rs.len() ==> (#[trigger] rs[i]).lines.len() > 0,
    ensures
        ({
            let k = kind_of(l);
            let rs2 = if rs.len() > 0 && rs.last().kind == k {
                rs.update(rs.len() - 1, Run { kind: k, lines: rs.last().lines.push(l) })
            } else {
                rs.push(Run { kind: k, lines: seq![l] })
            };
            &&& rs2.len() > 0
            &&& rs2.last().kind == k
            &&& (rs.len() > 0 && rs.last().kind == k) ==> {
                &&& rs2.drop_last() == rs.drop_last()
                &&& rs2.last().lines == rs.last().lines.push(l)
                &&& anchor_after(rs2) == anchor_after(rs)
                &&& k != LineKind::ListItem ==> rendered(title, rs2) == rendered(title, rs) + l
            }
            &&& !(rs.len() > 0 && rs.last().kind == k) ==> {
                &&& rs2.drop_last() == rs
                &&& rs2.last().lines == seq![l]
                &&& anchor_after(rs2) == if k == LineKind::Header {
                    slug(l)
                } else {
                    anchor_after(rs)
                }
                &&& k != LineKind::ListItem ==> rendered(title, rs2) == rendered(title, rs) + l
            }
        }),
{
    let k = kind_of(l);
    if rs.len() > 0 && rs.last().kind == k {
        let rs2 = rs.update(rs.len() - 1, Run { kind: k, lines: rs.last().lines.push(l) });
        assert(rs2.drop_last() =~= rs.drop_last());
        lemma_concat_push(rs.last().lines, l);
        assert(rs.last().lines.len() > 0);
        assert(rs2.last().lines[0] == rs.last().lines[0]);
    } else {
        let rs2 = rs.push(Run { kind: k, lines: seq![l] });
        assert(rs2.drop_last() =~= rs);
        lemma_concat_push(seq![], l);
        assert(seq![l] =~= Seq::<Seq<char>>::empty().push(l));
        assert(seq![] + l =~= l);
    }
}

/// The kind of the line `cs[from..to]`, which opens with a newline.
fn classify(cs: &Vec<char>, from: usize, to: usize) -> (k: LineKind)
    requires
        from < to <= cs@.len(),
        cs@[from as int] == '\n',
    ensures
        k == kind_of(cs@.subrange(from as int, to as int)),
{
    let ghost line = cs@.subrange(from as int, to as int);
    proof {
        assert(line.drop_first() =~= cs@.subrange(from + 1, to as int));
    }
    let d = count_digits(cs, from + 1, to);
    if d >= 1 && from + 1 + d < to && cs[from + 1 + d] == '.' {
        return LineKind::ListItem;
    }
    let h = count_run(cs, from + 1, to, '#');
    if h >= 1 && from + 1 + h < to && cs[from + 1 + h] == ' ' {
        return LineKind::Header;
    }
    LineKind::Vanilla
}

/// Collapses every run of three or more newlines in `s` to two.
pub fn squeeze_newlines(s: &str) -> (r: String)
    ensures
        r@ == collapse(s@),
{
    let cs = chars_of(s);
    let mut out = String::new();
    let mut last1 = false;
    let mut last2 = false;
    let mut i: usize = 0;
    while i < cs.len()
        invariant
            i <= cs@.len(),
            out@ == collapse(cs@.take(i as int)),
            last1 == (out@.len() >= 1 && out@[out@.len() - 1] == '\n'),
            last2 == (out@.len() >= 2 && out@[out@.len() - 2] == '\n'),
        decreases cs@.len() - i,
    {
        let c = cs[i];
        proof {
            assert(cs@.take(i + 1).drop_last() =~= cs@.take(i as int));
        }
        if !(c == '\n' && last1 && last2) {
            push_char(&mut out, c);
            last2 = last1;
            last1 = c == '\n';
        }
        i = i + 1;
    }
    proof {
        assert(cs@.take(i as int) =~= s@);
    }
    out
}

/// Transforms `contents`, a body that opens with a newline, for the note
/// titled `name`: every run of list items gets a roll-trigger line that
/// names the anchor in force, a table and an anchor label; header runs
/// put in force the anchor of their first line; runs of three or more
/// newlines are then cut to two.
pub fn parse(name: &str, contents: &str) -> (r: Result<String, DreadError>)
    ensures
        contents@.len() == 0 || contents@[0] == '\n' ==> (r matches Ok(t) && t@ == transformed(
            name@,
            contents@,
        )),
        contents@.len() > 0 && contents@[0] != '\n' ==> r == Err::<String, DreadError>(
            DreadError::MustStartWithNewline,
        ),
{
    let cs = chars_of(contents);
    if cs.len() == 0 {
        proof {
            assert(lines(contents@) =~= Seq::<Seq<char>>::empty());
            assert(runs(lines(contents@)) =~= Seq::<Run>::empty());
        }
        return Ok(String::new());
    }
    if cs[0] != '\n' {
        return Err(DreadError::MustStartWithNewline);
    }
    let mut chapter = ParsedChapter::new(name, "^START");
    let mut old_kind = LineKind::Vanilla;
    let ghost all = lines(cs@);
    let ghost mut k: int = 0;
    let mut pos: usize = 0;
    proof {
        assert(cs@.subrange(0, cs@.len() as int) =~= cs@);
        assert(all.skip(0) =~= all);
        assert(all.take(0) =~= Seq::<Seq<char>>::empty());
    }
    while pos < cs.len()
        invariant
            cs@ == contents@,
            pos <= cs@.len(),
            pos < cs@.len() ==> cs@[pos as int] == '\n',
            0 <= k <= all.len(),
            all == lines(cs@),
            lines(cs@.subrange(pos as int, cs@.len() as int)) == all.skip(k),
            chapter.wf(),
            chapter.title() == name@,
            scanned(name@, chapter.written(), chapter.items(), chapter.anchor(), runs(all.take(k))),
            old_kind == last_kind(runs(all.take(k))),
        decreases cs@.len() - pos,
    {
        let n = count_until(&cs, pos + 1, cs.len(), '\n');
        let e = pos + 1 + n;
        let ghost rest = cs@.subrange(pos as int, cs@.len() as int);
        let ghost l = cs@.subrange(pos as int, e as int);
        proof {
            assert(rest.drop_first() =~= cs@.subrange(pos + 1, cs@.len() as int));
            assert(rest.subrange(0, e - pos) =~= l);
            assert(rest.subrange(e - pos, rest.len() as int) =~= cs@.subrange(
                e as int,
                cs@.len() as int,
            ));
            assert(lines(rest) == seq![l] + lines(cs@.subrange(e as int, cs@.len() as int)));
            assert(all.skip(k)[0] == all[k]);
            assert(all[k] == l);
            assert(all.skip(k + 1) =~= all.skip(k).drop_first());
            assert(all.take(k + 1) =~= all.take(k).push(l));
            lemma_runs_push(all.take(k), l);
            lemma_runs_nonempty(all.take(k));
            lemma_scan_step(name@, runs(all.take(k)), l);
            if last_kind(runs(all.take(k))) == LineKind::ListItem {
                lemma_close_list(name@, runs(all.take(k)));
            }
        }
        let line = contents.substring_char(pos, e);
        let kind = classify(&cs, pos, e);
        if kind != old_kind {
            match chapter.change_kind(old_kind, kind) {
                Ok(()) => {},
                Err(err) => {
                    return Err(err);
                },
            }
            if kind == LineKind::Header {
                chapter.set_link(line);
            }
        }
        let ghost before = chapter.items();
        chapter.push_line(kind, line);
        proof {
            if kind == LineKind::ListItem && kind != old_kind {
                assert(before.push(l) =~= seq![l]);
            }
        }
        old_kind = kind;
        pos = e;
        proof {
            k = k + 1;
        }
    }
    proof {
        assert(cs@.subrange(pos as int, cs@.len() as int) =~= Seq::<char>::empty());
        assert(lines(Seq::<char>::empty()) =~= Seq::<Seq<char>>::empty());
        assert(all.take(k) =~= all);
        if last_kind(runs(all)) == LineKind::ListItem {
            lemma_close_list(name@, runs(all));
        }
    }
    match chapter.change_kind(old_kind, LineKind::Vanilla) {
        Ok(()) => {},
        Err(err) => {
            return Err(err);
        },
    }
    Ok(chapter.to_text())
}

/// The output under construction for one body: text written so far, the
/// items of the list run in progress, and the anchor in force.
pub struct ParsedChapter<'a> {
    name: &'a str,
    parsed: String,
    list: Vec<&'a str>,
    link: String,
}

impl<'a> ParsedChapter<'a> {
    /// The note title that roll-trigger lines refer to.
    pub closed spec fn title(&self) -> Seq<char> {
        self.name@
    }

    /// The text written so far.
    pub closed spec fn written(&self) -> Seq<char> {
        self.parsed@
    }

    /// The items of the list run in progress.
    pub closed spec fn items(&self) -> Seq<Seq<char>> {
        views(self.list@)
    }

    /// The anchor in force.
    pub closed spec fn anchor(&self) -> Seq<char> {
        self.link@
    }

    /// Every pending item is a list item.
    pub open spec fn wf(&self) -> bool {
        forall|i: int| 0 <= i < self.items().len() ==> is_list_item(#[trigger] self.items()[i])
    }

    /// An empty chapter for note `name`, with `link` in force.
    pub fn new(name: &'a str, link: &str) -> (r: Self)
        ensures
            r.wf(),
            r.title() == name@,
            r.written() == Seq::<char>::empty(),
            r.items() == Seq::<Seq<char>>::empty(),
            r.anchor() == link@,
    {
        let r = ParsedChapter {
            name,
            parsed: String::new(),
            list: Vec::new(),
            link: String::from_str(link),
        };
        proof {
            assert(r.items() =~= Seq::<Seq<char>>::empty());
        }
        r
    }

    /// Takes in one line of kind `kind`: a list item waits for its table,
    /// any other line is written as it is.
    pub fn push_line(&mut self, kind: LineKind, line: &'a str)
        requires
            old(self).wf(),
            kind == LineKind::ListItem ==> is_list_item(line@),
        ensures
            final(self).wf(),
            final(self).title() == old(self).title(),
            final(self).anchor() == old(self).anchor(),
            kind == LineKind::ListItem ==> {
                &&& final(self).items() == old(self).items().push(line@)
                &&& final(self).written() == old(self).written()
            },
            kind != LineKind::ListItem ==> {
                &&& final(self).items() == old(self).items()
                &&& final(self).written() == old(self).written() + line@
            },
    {
        match kind {
            LineKind::ListItem => {
                self.list.push(line);
                proof {
                    assert(self.items() =~= old(self).items().push(line@));
                }
            },
            _ => {
                self.parsed.append(line);
            },
        }
    }

    /// Puts in force the anchor of header line `header`.
    pub fn set_link(&mut self, header: &str)
        requires
            old(self).wf(),
        ensures
            final(self).wf(),
            final(self).title() == old(self).title(),
            final(self).written() == old(self).written(),
            final(self).items() == old(self).items(),
            final(self).anchor() == slug(header@),
    {
        self.link = make_link(header);
        proof {
            assert(self.items() =~= old(self).items());
        }
    }

    /// Writes `line` as a paragraph of its own.
    pub fn push_as_paragraph(&mut self, line: String)
        requires
            old(self).wf(),
        ensures
            final(self).wf(),
            final(self).title() == old(self).title(),
            final(self).items() == old(self).items(),
            final(self).anchor() == old(self).anchor(),
            final(self).written() == old(self).written() + paragraph(line@),
    {
        self.parsed.append("\n\n");
        self.parsed.append(line.as_str());
        self.parsed.append("\n\n");
        proof {
            assert(self.written() =~= old(self).written() + paragraph(line@));
            assert(self.items() =~= old(self).items());
        }
    }

    /// Reacts to a change of line kind from `from` to `to`: opening a list
    /// run writes the roll-trigger line; closing one writes its table and
    /// the anchor label.
    pub fn change_kind(&mut self, from: LineKind, to: LineKind) -> (r: Result<(), DreadError>)
        requires
            old(self).wf(),
        ensures
            final(self).wf(),
            final(self).title() == old(self).title(),
            final(self).anchor() == old(self).anchor(),
            to == LineKind::ListItem ==> {
                &&& r is Ok
                &&& final(self).items() == old(self).items()
                &&& final(self).written() == old(self).written() + paragraph(
                    dice_line(old(self).title(), old(self).anchor()),
                )
            },
            to != LineKind::ListItem && from == LineKind::ListItem && old(self).items().len() == 0
                ==> {
                &&& r == Err::<(), DreadError>(DreadError::EmptyListRun)
                &&& final(self).items() == old(self).items()
                &&& final(self).written() == old(self).written()
            },
            to != LineKind::ListItem && from == LineKind::ListItem && old(self).items().len() > 0
                ==> {
                &&& r is Ok
                &&& final(self).items().len() == 0
                &&& final(self).written() == old(self).written() + table(old(self).items())
                    + paragraph(old(self).anchor())
            },
            to != LineKind::ListItem && from != LineKind::ListItem ==> {
                &&& r is Ok
                &&& final(self).items() == old(self).items()
                &&& final(self).written() == old(self).written()
            },
    {
        if to == LineKind::ListItem {
            let code = dice_code(self.name, self.link.as_str());
            self.push_as_paragraph(code);
        } else if from == LineKind::ListItem {
            proof {
                assert forall|i: int| 0 <= i < self.list@.len() implies is_list_item(
                    #[trigger] self.list@[i]@,
                ) by {
                    assert(self.items()[i] == self.list@[i]@);
                }
            }
            let t = match list_to_table(&self.list) {
                Ok(t) => t,
                Err(e) => {
                    return Err(e);
                },
            };
            self.parsed.append(t.as_str());
            self.list.clear();
            let link = self.link.clone();
            self.push_as_paragraph(link);
            proof {
                assert(self.items() =~= Seq::<Seq<char>>::empty());
            }
        }
        Ok(())
    }

    /// The text written, with runs of three or more newlines cut to two.
    pub fn to_text(&self) -> (r: String)
        ensures
            r@ == collapse(self.written()),
    {
        squeeze_newlines(self.parsed.as_str())
    }
}

} // verus!
