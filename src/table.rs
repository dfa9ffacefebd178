//! Rendering of a run of list items as a rollable Markdown table.

use vstd::prelude::*;
use crate::error::DreadError;
use crate::text::{chars_of, count_digits, lead_digits, push_char, push_range, trim, trim_bounds};

verus! {

/// The character of a decimal digit.
pub open spec fn digit_char(d: nat) -> char {
    if d == 0 {
        '0'
    } else if d == 1 {
        '1'
    } else if d == 2 {
        '2'
    } else if d == 3 {
        '3'
    } else if d == 4 {
        '4'
    } else if d == 5 {
        '5'
    } else if d == 6 {
        '6'
    } else if d == 7 {
        '7'
    } else if d == 8 {
        '8'
    } else {
        '9'
    }
}

/// `n` written in decimal, without leading zeros.
pub open spec fn decimal(n: nat) -> Seq<char>
    decreases n,
{
    if n < 10 {
        seq![digit_char(n)]
    } else {
        decimal(n / 10).push(digit_char(n % 10))
    }
}

/// Whether `line` (with its leading newline) is a list item: digits, then `.`.
pub open spec fn is_list_item(line: Seq<char>) -> bool {
    &&& line.len() > 0
    &&& line[0] == '\n'
    &&& lead_digits(line.drop_first()) >= 1
    &&& lead_digits(line.drop_first()) + 1 < line.len()
    &&& line[lead_digits(line.drop_first()) + 1int] == '.'
}

/// The text of a list item: what follows its `<digits>.` marker, trimmed.
pub open spec fn item_text(line: Seq<char>) -> Seq<char> {
    trim(line.subrange(lead_digits(line.drop_first()) + 2int, line.len() as int))
}

/// The header and alignment rows of a table for a die with `n` sides.
pub open spec fn table_head(n: nat) -> Seq<char> {
    "\n| d"@ + decimal(n) + " | Item |\n| --:| -- |"@
}

/// One row per item, numbered from 1 by position.
pub open spec fn table_rows(items: Seq<Seq<char>>) -> Seq<char>
    decreases items.len(),
{
    if items.len() == 0 {
        seq![]
    } else {
        table_rows(items.drop_last()) + "\n| "@ + decimal(items.len()) + " | "@ + item_text(
            items.last(),
        ) + " |"@
    }
}

/// The table for a run of list items.
pub open spec fn table(items: Seq<Seq<char>>) -> Seq<char> {
    table_head(items.len()) + table_rows(items)
}

/// The views of a sequence of string slices.
pub open spec fn views(items: Seq<&str>) -> Seq<Seq<char>> {
    items.map_values(|s: &str| s@)
}

fn digit(d: usize) -> (c: char)
    requires
        d < 10,
    ensures
        c == digit_char(d as nat),
{
    if d == 0 {
        '0'
    } else if d == 1 {
        '1'
    } else if d == 2 {
        '2'
    } else if d == 3 {
        '3'
    } else if d == 4 {
        '4'
    } else if d == 5 {
        '5'
    } else if d == 6 {
        '6'
    } else if d == 7 {
        '7'
    } else if d == 8 {
        '8'
    } else {
        '9'
    }
}

/// Appends `n` in decimal.
pub fn push_decimal(out: &mut String, n: usize)
    ensures
        final(out)@ == old(out)@ + decimal(n as nat),
    decreases n,
{
    if n >= 10 {
        push_decimal(out, n / 10);
    }
    push_char(out, digit(n % 10));
    proof {
        assert(final(out)@ =~= old(out)@ + decimal(n as nat));
    }
}

/// Renders a run of list items as a table: a `| d<N> | Item |` header for
/// `N` items, an alignment row, and one row per item numbered by its
/// position, holding the item's text after its marker, trimmed.
pub fn list_to_table(items: &Vec<&str>) -> (r: Result<String, DreadError>)
    requires
        forall|i: int| 0 <= i < items@.len() ==> is_list_item(#[trigger] items@[i]@),
    ensures
        items@.len() == 0 ==> r == Err::<String, DreadError>(DreadError::EmptyListRun),
        items@.len() > 0 ==> (r matches Ok(t) && t@ == table(views(items@))),
{
    let n = items.len();
    if n == 0 {
        return Err(DreadError::EmptyListRun);
    }
    let mut out = String::from_str("\n| d");
    push_decimal(&mut out, n);
    out.append(" | Item |\n| --:| -- |");
    let ghost all = views(items@);
    let mut i: usize = 0;
    while i < n
        invariant
            n == items@.len(),
            all == views(items@),
            i <= n,
            out@ == table_head(n as nat) + table_rows(all.take(i as int)),
            forall|j: int| 0 <= j < items@.len() ==> is_list_item(#[trigger] items@[j]@),
        decreases n - i,
    {
        let cs = chars_of(items[i]);
        let d = count_digits(&cs, 1, cs.len());
        proof {
            assert(cs@.subrange(1, cs@.len() as int) =~= cs@.drop_first());
        }
        let (a, b) = trim_bounds(&cs, d + 2, cs.len());
        out.append("\n| ");
        push_decimal(&mut out, i + 1);
        out.append(" | ");
        push_range(&mut out, &cs, a, b);
        out.append(" |");
        proof {
            assert(all.take(i + 1).drop_last() =~= all.take(i as int));
            assert(all[i as int] == items@[i as int]@);
        }
        i = i + 1;
        proof {
            assert(out@ =~= table_head(n as nat) + table_rows(all.take(i as int)));
        }
    }
    proof {
        assert(all.take(n as int) =~= all);
    }
    Ok(out)
}

} // verus!
