//! Row labels shown left of the table: R's indexing syntax for each row.
use std::ops::Range;
use vstd::prelude::*;
use crate::r_types::RTraits;
use crate::term::{line_width, line_width_of};
use crate::text::{decimal, push_char, push_decimal, push_str, strings_view};

verus! {

/// What the row labels depend on: the kind of object and its row names.
pub enum IndexKind {
    /// A data frame: rows are numbered.
    Frame,
    /// A list, with its element names if it has any.
    List { names: Option<Vec<String>> },
    /// A matrix, with its row names if it has any.
    Matrix { row_names: Option<Vec<String>> },
    /// An array with `ndim` dimensions, with its row names if it has any.
    Array { ndim: usize, row_names: Option<Vec<String>> },
    /// An atomic vector, with its element names if it has any.
    Vector { names: Option<Vec<String>> },
}

/// What the row labels of an object with traits `t` depend on: a data frame
/// numbers its rows; a list and an atomic vector use their element `names`;
/// a matrix and an array use their `row_names`, and an array also its
/// number of dimensions `ndim` (two when it is unknown).  The checks go in
/// that order: data frame, list, matrix, array, anything else.
pub fn index_kind(
    t: &RTraits,
    names: Option<Vec<String>>,
    row_names: Option<Vec<String>>,
    ndim: Option<usize>,
) -> (r: IndexKind)
    ensures
        r == (if t.is_frame {
            IndexKind::Frame
        } else if t.is_list {
            IndexKind::List { names }
        } else if t.is_matrix {
            IndexKind::Matrix { row_names }
        } else if t.is_array {
            IndexKind::Array {
                ndim: match ndim {
                    Some(d) => d,
                    None => 2,
                },
                row_names,
            }
        } else {
            IndexKind::Vector { names }
        }),
{
    if t.is_frame {
        IndexKind::Frame
    } else if t.is_list {
        IndexKind::List { names }
    } else if t.is_matrix {
        IndexKind::Matrix { row_names }
    } else if t.is_array {
        let d = match ndim {
            Some(d) => d,
            None => 2,
        };
        IndexKind::Array { ndim: d, row_names }
    } else {
        IndexKind::Vector { names }
    }
}

/// The name of row `i`, if the names cover it and it is not empty.
pub open spec fn name_at(names: Option<Vec<String>>, i: int) -> Option<Seq<char>> {
    match names {
        Some(v) if 0 <= i < v@.len() && v@[i]@.len() > 0 => Some(v@[i]@),
        _ => None,
    }
}

/// `", "` repeated `n` times.
pub open spec fn comma_blanks(n: nat) -> Seq<char>
    decreases n,
{
    if n == 0 {
        Seq::empty()
    } else {
        comma_blanks((n - 1) as nat) + seq![',', ' ']
    }
}

/// Label of row `i` (zero-based): `i+1` for a data frame, `[["name"]]` or
/// `[[i+1]]` for a list, `["name", ]` or `[i+1, ]` for a matrix, `["name", , ]`
/// or `[i+1, , ]` (one `, ` per further dimension) for an array, and
/// `["name"]` or `[i+1]` for a vector.
pub open spec fn index_label(kind: IndexKind, i: int) -> Seq<char> {
    let number = decimal((i + 1) as nat);
    match kind {
        IndexKind::Frame => number,
        IndexKind::List { names } => match name_at(names, i) {
            Some(n) => seq!['[', '[', '"'] + n + seq!['"', ']', ']'],
            None => seq!['[', '['] + number + seq![']', ']'],
        },
        IndexKind::Matrix { row_names } => match name_at(row_names, i) {
            Some(n) => seq!['[', '"'] + n + seq!['"', ',', ' ', ']'],
            None => seq!['['] + number + seq![',', ' ', ']'],
        },
        IndexKind::Array { ndim, row_names } => {
            let trailing = comma_blanks(ndim.saturating_sub(1) as nat);
            match name_at(row_names, i) {
                Some(n) => seq!['[', '"'] + n + seq!['"'] + trailing + seq![']'],
                None => seq!['['] + number + trailing + seq![']'],
            }
        },
        IndexKind::Vector { names } => match name_at(names, i) {
            Some(n) => seq!['[', '"'] + n + seq!['"', ']'],
            None => seq!['['] + number + seq![']'],
        },
    }
}

/// The non-empty name of row `i`, if there is one.
fn name_of(names: &Option<Vec<String>>, i: usize) -> (r: Option<&String>)
    ensures
        match r {
            Some(s) => name_at(*names, i as int) == Some(s@),
            None => name_at(*names, i as int) is None,
        },
{
    match names {
        Some(v) => {
            if i < v.len() && !v[i].as_str().is_empty() {
                Some(&v[i])
            } else {
                None
            }
        },
        None => None,
    }
}

/// Appends `", "` `n` times.
fn push_comma_blanks(s: &mut String, n: usize)
    ensures
        final(s)@ == old(s)@ + comma_blanks(n as nat),
{
    let mut k: usize = 0;
    while k < n
        invariant
            k <= n,
            s@ == old(s)@ + comma_blanks(k as nat),
        decreases n - k,
    {
        push_char(s, ',');
        push_char(s, ' ');
        k = k + 1;
        assert(s@ =~= old(s)@ + comma_blanks(k as nat));
    }
}

/// Label of row `i` (zero-based).
pub fn index_label_of(kind: &IndexKind, i: usize) -> (r: String)
    requires
        i < usize::MAX,
    ensures
        r@ == index_label(*kind, i as int),
{
    let mut out = String::new();
    match kind {
        IndexKind::Frame => {
            push_decimal(&mut out, i + 1);
        },
        IndexKind::List { names } => {
            push_char(&mut out, '[');
            push_char(&mut out, '[');
            match name_of(names, i) {
                Some(n) => {
                    push_char(&mut out, '"');
                    push_str(&mut out, n.as_str());
                    push_char(&mut out, '"');
                },
                None => {
                    push_decimal(&mut out, i + 1);
                },
            }
            push_char(&mut out, ']');
            push_char(&mut out, ']');
        },
        IndexKind::Matrix { row_names } => {
            push_char(&mut out, '[');
            match name_of(row_names, i) {
                Some(n) => {
                    push_char(&mut out, '"');
                    push_str(&mut out, n.as_str());
                    push_char(&mut out, '"');
                },
                None => {
                    push_decimal(&mut out, i + 1);
                },
            }
            push_char(&mut out, ',');
            push_char(&mut out, ' ');
            push_char(&mut out, ']');
        },
        IndexKind::Array { ndim, row_names } => {
            push_char(&mut out, '[');
            match name_of(row_names, i) {
                Some(n) => {
                    push_char(&mut out, '"');
                    push_str(&mut out, n.as_str());
                    push_char(&mut out, '"');
                },
                None => {
                    push_decimal(&mut out, i + 1);
                },
            }
            push_comma_blanks(&mut out, ndim.saturating_sub(1));
            push_char(&mut out, ']');
        },
        IndexKind::Vector { names } => {
            push_char(&mut out, '[');
            match name_of(names, i) {
                Some(n) => {
                    push_char(&mut out, '"');
                    push_str(&mut out, n.as_str());
                    push_char(&mut out, '"');
                },
                None => {
                    push_decimal(&mut out, i + 1);
                },
            }
            push_char(&mut out, ']');
        },
    }
    assert(out@ =~= index_label(*kind, i as int));
    out
}

/// Labels of the rows `row_window`.
pub fn get_index_labels(kind: &IndexKind, row_window: Range<usize>) -> (r: Vec<String>)
    ensures
        r@.len() == (if row_window.start <= row_window.end { row_window.end - row_window.start } else { 0 }),
        forall|k: int| 0 <= k < r@.len() ==> #[trigger] r@[k]@ == index_label(*kind, row_window.start + k),
{
    let start = row_window.start;
    let end = row_window.end;
    let mut out: Vec<String> = Vec::new();
    let mut i = start;
    while i < end
        invariant
            start == row_window.start,
            end == row_window.end,
            start <= i,
            start <= end ==> i <= end,
            start > end ==> i == start,
            out@.len() == i - start,
            forall|k: int| 0 <= k < out@.len() ==> #[trigger] out@[k]@ == index_label(*kind, start + k),
        decreases end - i,
    {
        out.push(index_label_of(kind, i));
        i = i + 1;
    }
    out
}

/// The widest display width among `labels`.
pub open spec fn widest_label(labels: Seq<Seq<char>>) -> int
    decreases labels.len(),
{
    if labels.len() == 0 {
        0
    } else {
        let rest = widest_label(labels.drop_last());
        let last = line_width_of(labels.last()) as int;
        if last > rest {
            last
        } else {
            rest
        }
    }
}

/// Width of the index column: the widest label plus one blank.
pub fn index_column_width(labels: &Vec<String>) -> (r: usize)
    ensures
        r == (if widest_label(strings_view(labels@)) + 1 > usize::MAX {
            usize::MAX as int
        } else {
            widest_label(strings_view(labels@)) + 1
        }),
{
    let ghost lv = strings_view(labels@);
    let mut widest: usize = 0;
    let mut i: usize = 0;
    while i < labels.len()
        invariant
            i <= labels@.len(),
            lv == strings_view(labels@),
            widest == widest_label(lv.take(i as int)),
        decreases labels@.len() - i,
    {
        proof {
            assert(lv.take(i as int + 1).drop_last() =~= lv.take(i as int));
            assert(lv.take(i as int + 1).last() == labels@[i as int]@);
        }
        let w = line_width(labels[i].as_str());
        if w > widest {
            widest = w;
        }
        i = i + 1;
    }
    proof {
        assert(lv.take(labels@.len() as int) =~= lv);
    }
    widest.saturating_add(1)
}

} // verus!
