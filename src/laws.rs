//! Properties of the transformer that hold of every input.

use vstd::prelude::*;
use crate::anchor::{dice_line, slug};
use crate::table::table;
use crate::text::lead_other;
use crate::transform::{
    anchor_after, collapse, lemma_runs_nonempty, concat, kind_of, lines, paragraph, rendered, run_text, runs,
    transformed, LineKind, Run,
};

verus! {

/// Whether `t` holds no three newlines in a row.
pub open spec fn no_triple_newline(t: Seq<char>) -> bool {
    forall|i: int|
        2 <= i < t.len() ==> !(#[trigger] t[i] == '\n' && t[i - 1] == '\n' && t[i - 2] == '\n')
}

/// The lines of the runs `rs`, in order.
pub open spec fn run_lines(rs: Seq<Run>) -> Seq<Seq<char>>
    decreases rs.len(),
{
    if rs.len() == 0 {
        seq![]
    } else {
        run_lines(rs.drop_last()) + rs.last().lines
    }
}

proof fn lemma_collapse_no_triple(s: Seq<char>)
    ensures
        no_triple_newline(collapse(s)),
    decreases s.len(),
{
    if s.len() > 0 {
        lemma_collapse_no_triple(s.drop_last());
    }
}

proof fn lemma_collapse_fixes(t: Seq<char>)
    requires
        no_triple_newline(t),
    ensures
        collapse(t) == t,
    decreases t.len(),
{
    if t.len() > 0 {
        let p = t.drop_last();
        assert(no_triple_newline(p)) by {
            assert forall|i: int| 2 <= i < p.len() implies !(#[trigger] p[i] == '\n' && p[i - 1]
                == '\n' && p[i - 2] == '\n') by {
                assert(t[i] == p[i]);
            }
        }
        lemma_collapse_fixes(p);
        if t.len() >= 3 {
            let n = t.len() - 1;
            assert(!(t[n] == '\n' && t[n - 1] == '\n' && t[n - 2] == '\n'));
        }
        assert(p.push(t.last()) =~= t);
    }
}

/// Collapsing blank lines a second time changes nothing: the collapsed text
/// holds no three newlines in a row, and such a text is its own collapse.
pub proof fn collapse_idempotent(s: Seq<char>)
    ensures
        no_triple_newline(collapse(s)),
        collapse(collapse(s)) == collapse(s),
{
    lemma_collapse_no_triple(s);
    lemma_collapse_fixes(collapse(s));
}

/// An anchor depends on the header's text alone: equal header texts give
/// equal anchors, which is what `make_link` returns for each.
pub proof fn slug_deterministic(a: Seq<char>, b: Seq<char>)
    requires
        a == b,
    ensures
        slug(a) == slug(b),
{
}

proof fn lemma_lead_other_bound(s: Seq<char>, c: char)
    ensures
        lead_other(s, c) <= s.len(),
    decreases s.len(),
{
    if s.len() > 0 {
        lemma_lead_other_bound(s.drop_first(), c);
    }
}

proof fn lemma_concat_prepend(x: Seq<char>, rest: Seq<Seq<char>>)
    ensures
        concat(seq![x] + rest) == x + concat(rest),
    decreases rest.len(),
{
    let e = Seq::<Seq<char>>::empty();
    assert(concat(e) =~= Seq::<char>::empty());
    if rest.len() == 0 {
        assert(seq![x] + rest =~= seq![x]);
        assert(seq![x].drop_last() =~= e);
        assert(concat(seq![x]) == concat(e) + x);
        assert(Seq::<char>::empty() + x =~= x);
        assert(x + Seq::<char>::empty() =~= x);
    } else {
        let whole = seq![x] + rest;
        assert(whole.drop_last() =~= seq![x] + rest.drop_last());
        assert(whole.last() == rest.last());
        lemma_concat_prepend(x, rest.drop_last());
        assert(concat(whole) == concat(whole.drop_last()) + whole.last());
        assert(concat(rest) == concat(rest.drop_last()) + rest.last());
        assert(x + concat(rest.drop_last()) + rest.last() =~= x + (concat(rest.drop_last())
            + rest.last()));
    }
}

/// The lines of `s`, put back together, are `s`.
pub proof fn lemma_concat_lines(s: Seq<char>)
    ensures
        concat(lines(s)) == s,
    decreases s.len(),
{
    if s.len() > 0 {
        lemma_lead_other_bound(s.drop_first(), '\n');
        let e = 1 + lead_other(s.drop_first(), '\n') as int;
        let tail = s.subrange(e, s.len() as int);
        lemma_concat_lines(tail);
        lemma_concat_prepend(s.subrange(0, e), lines(tail));
        assert(s.subrange(0, e) + tail =~= s);
    } else {
        assert(lines(s) =~= Seq::<Seq<char>>::empty());
    }
}

proof fn lemma_all_vanilla_runs(ls: Seq<Seq<char>>)
    requires
        ls.len() > 0,
        forall|i: int| 0 <= i < ls.len() ==> kind_of(#[trigger] ls[i]) == LineKind::Vanilla,
    ensures
        runs(ls) == seq![Run { kind: LineKind::Vanilla, lines: ls }],
    decreases ls.len(),
{
    let p = ls.drop_last();
    assert(kind_of(ls.last()) == LineKind::Vanilla);
    if ls.len() == 1 {
        assert(p =~= Seq::<Seq<char>>::empty());
        assert(seq![ls.last()] =~= ls);
    } else {
        assert forall|i: int| 0 <= i < p.len() implies kind_of(#[trigger] p[i])
            == LineKind::Vanilla by {
            assert(p[i] == ls[i]);
        }
        lemma_all_vanilla_runs(p);
        assert(p.push(ls.last()) =~= ls);
        assert(runs(ls) =~= seq![Run { kind: LineKind::Vanilla, lines: ls }]);
    }
}

/// A body of nothing but prose lines, with no three newlines in a row, is
/// its own transformation.
pub proof fn prose_unchanged(title: Seq<char>, body: Seq<char>)
    requires
        forall|i: int|
            0 <= i < lines(body).len() ==> kind_of(#[trigger] lines(body)[i]) == LineKind::Vanilla,
        no_triple_newline(body),
    ensures
        transformed(title, body) == body,
{
    let ls = lines(body);
    lemma_concat_lines(body);
    if ls.len() == 0 {
        assert(runs(ls) =~= Seq::<Run>::empty());
        assert(body =~= Seq::<char>::empty());
    } else {
        lemma_all_vanilla_runs(ls);
        let rs = runs(ls);
        assert(rs.drop_last() =~= Seq::<Run>::empty());
        assert(rendered(title, rs.drop_last()) =~= Seq::<char>::empty());
        assert(rs.last() == Run { kind: LineKind::Vanilla, lines: ls });
        assert(run_text(title, rs.last(), anchor_after(rs.drop_last())) == concat(ls));
        assert(rendered(title, rs) =~= concat(ls));
    }
    lemma_collapse_fixes(body);
}

proof fn lemma_run_lines(ls: Seq<Seq<char>>)
    ensures
        run_lines(runs(ls)) == ls,
    decreases ls.len(),
{
    if ls.len() == 0 {
        assert(run_lines(runs(ls)) =~= ls);
    } else {
        let p = ls.drop_last();
        let l = ls.last();
        lemma_run_lines(p);
        let r = runs(p);
        let k = kind_of(l);
        if r.len() > 0 && r.last().kind == k {
            let r2 = r.update(r.len() - 1, Run { kind: k, lines: r.last().lines.push(l) });
            assert(r2.drop_last() =~= r.drop_last());
            assert(run_lines(r) == run_lines(r.drop_last()) + r.last().lines);
            assert(run_lines(r2) == run_lines(r2.drop_last()) + r2.last().lines);
            assert(ls =~= run_lines(r).push(l));
            assert((run_lines(r.drop_last()) + r.last().lines).push(l) =~= run_lines(r.drop_last())
                + r.last().lines.push(l));
        } else {
            let r2 = r.push(Run { kind: k, lines: seq![l] });
            assert(r2.drop_last() =~= r);
            assert(run_lines(r2) == run_lines(r) + seq![l]);
            assert(p + seq![l] =~= ls);
        }
    }
}

proof fn lemma_run_kinds(ls: Seq<Seq<char>>)
    ensures
        forall|i: int, k: int|
            0 <= i < runs(ls).len() && 0 <= k < runs(ls)[i].lines.len() ==> kind_of(
                #[trigger] runs(ls)[i].lines[k],
            ) == runs(ls)[i].kind,
    decreases ls.len(),
{
    if ls.len() > 0 {
        let p = ls.drop_last();
        let l = ls.last();
        lemma_run_kinds(p);
        let r = runs(p);
        let k = kind_of(l);
        let r2 = runs(ls);
        assert forall|i: int, j: int|
            0 <= i < r2.len() && 0 <= j < r2[i].lines.len() implies kind_of(
            #[trigger] r2[i].lines[j],
        ) == r2[i].kind by {
            if i < r.len() && !(i == r.len() - 1 && r.last().kind == k) {
                assert(r2[i] == r[i]);
            } else if i == r.len() - 1 && j < r.last().lines.len() {
                assert(r2[i].lines[j] == r[i].lines[j]);
            }
        }
    }
}

proof fn lemma_run_neighbours(ls: Seq<Seq<char>>)
    ensures
        forall|i: int|
            0 <= i < runs(ls).len() - 1 ==> (#[trigger] runs(ls)[i]).kind != runs(ls)[i + 1].kind,
    decreases ls.len(),
{
    if ls.len() > 0 {
        let p = ls.drop_last();
        let l = ls.last();
        lemma_run_neighbours(p);
        let r = runs(p);
        let r2 = runs(ls);
        assert forall|i: int| 0 <= i < r2.len() - 1 implies (#[trigger] r2[i]).kind != r2[i
            + 1].kind by {
            assert(r2[i] == r[i]);
            if i + 1 < r.len() {
                assert(r2[i + 1].kind == r[i + 1].kind);
            }
        }
    }
}

/// The runs of `ls` partition it: together they hold its lines in order,
/// each run holds lines of its own kind only, and neighbouring runs differ
/// in kind, so every run is maximal.
pub proof fn runs_are_maximal(ls: Seq<Seq<char>>)
    ensures
        run_lines(runs(ls)) == ls,
        forall|i: int| 0 <= i < runs(ls).len() ==> (#[trigger] runs(ls)[i]).lines.len() > 0,
        forall|i: int, k: int|
            0 <= i < runs(ls).len() && 0 <= k < runs(ls)[i].lines.len() ==> kind_of(
                #[trigger] runs(ls)[i].lines[k],
            ) == runs(ls)[i].kind,
        forall|i: int|
            0 <= i < runs(ls).len() - 1 ==> (#[trigger] runs(ls)[i]).kind != runs(ls)[i + 1].kind,
{
    lemma_run_lines(ls);
    lemma_runs_nonempty(ls);
    lemma_run_kinds(ls);
    lemma_run_neighbours(ls);
}

proof fn lemma_rendered_prefix(title: Seq<char>, rs: Seq<Run>, j: int)
    requires
        0 <= j <= rs.len(),
    ensures
        rendered(title, rs.take(j)).len() <= rendered(title, rs).len(),
        rendered(title, rs).subrange(0, rendered(title, rs.take(j)).len() as int) == rendered(
            title,
            rs.take(j),
        ),
    decreases rs.len(),
{
    if j == rs.len() {
        assert(rs.take(j) =~= rs);
        assert(rendered(title, rs).subrange(0, rendered(title, rs).len() as int) =~= rendered(
            title,
            rs,
        ));
    } else {
        let p = rs.drop_last();
        lemma_rendered_prefix(title, p, j);
        assert(p.take(j) =~= rs.take(j));
        let pre = rendered(title, rs.take(j));
        assert(rendered(title, rs).subrange(0, pre.len() as int) =~= rendered(title, p).subrange(
            0,
            pre.len() as int,
        ));
    }
}

/// Every run of list items becomes, in the text before blank lines are
/// collapsed, a roll-trigger line naming the anchor in force, then a table
/// with one row per item of the run, then one anchor label; these stand
/// right after the text of the runs before it, whether or not other runs
/// follow.
pub proof fn list_run_rendering(title: Seq<char>, body: Seq<char>, j: int)
    requires
        0 <= j < runs(lines(body)).len(),
        runs(lines(body))[j].kind == LineKind::ListItem,
    ensures
        ({
            let rs = runs(lines(body));
            let a = anchor_after(rs.take(j));
            let before = rendered(title, rs.take(j));
            let piece = paragraph(dice_line(title, a)) + table(rs[j].lines) + paragraph(a);
            &&& rendered(title, rs).subrange(0, (before.len() + piece.len()) as int) == before + piece
            &&& rs[j].lines.len() > 0
        }),
{
    let rs = runs(lines(body));
    lemma_runs_nonempty(lines(body));
    assert(rs[j].lines.len() > 0);
    lemma_rendered_prefix(title, rs, j + 1);
    let t = rs.take(j + 1);
    assert(t.drop_last() =~= rs.take(j));
    assert(t.last() == rs[j]);
    let a = anchor_after(rs.take(j));
    assert(rendered(title, t) =~= rendered(title, rs.take(j)) + (paragraph(dice_line(title, a))
        + table(rs[j].lines) + paragraph(a)));
    assert(rendered(title, t) =~= rendered(title, rs.take(j)) + paragraph(dice_line(title, a))
        + table(rs[j].lines) + paragraph(a));
}

/// The anchor in force when run `j` begins is that of the first line of the
/// nearest header run before it, or `^START` where no header run precedes.
pub proof fn trigger_anchor(rs: Seq<Run>, j: int)
    requires
        0 <= j <= rs.len(),
    ensures
        (forall|i: int| 0 <= i < j ==> (#[trigger] rs[i]).kind != LineKind::Header) ==> anchor_after(
            rs.take(j),
        ) == "^START"@,
        forall|h: int|
            0 <= h < j && (#[trigger] rs[h]).kind == LineKind::Header && (forall|i: int|
                h < i < j ==> (#[trigger] rs[i]).kind != LineKind::Header) ==> anchor_after(
                rs.take(j),
            ) == slug(rs[h].lines[0]),
    decreases j,
{
    if j > 0 {
        let t = rs.take(j);
        assert(t.drop_last() =~= rs.take(j - 1));
        assert(t.last() == rs[j - 1]);
        trigger_anchor(rs, j - 1);
    } else {
        assert(rs.take(0) =~= Seq::<Run>::empty());
    }
}

} // verus!
