//! Formatted columns: the text R's pillar formatter produced for a column
//! (an optional title line, a type line and one entry per value), read as
//! ANSI-styled text and measured.
use vstd::prelude::*;
use crate::term::{ansi_plain_spans, ansi_spans, lines_view, span_width, span_width_of};
use crate::text::strings_view;

verus! {

/// One formatted piece of text: the ANSI-styled string, the plain contents
/// of its spans line by line, and its display width.
pub struct CellText {
    pub raw: String,
    pub lines: Vec<Vec<String>>,
    pub width: usize,
}

/// The formatted pieces of one column and the width they share.
pub struct TableCol {
    pub title_text: Option<CellText>,
    pub type_text: CellText,
    pub values_text: Vec<CellText>,
    pub width: usize,
}

/// Why formatting or assembling columns failed.
pub enum FormatError {
    /// The formatter's text could not be read as ANSI-styled text.
    UnparsableText,
    /// A piece of text is wider than a `usize` can count.
    TooWide,
    /// The columns of a table do not all have the rows of the first one.
    MismatchedColumns,
}

/// Display width of a line: the sum of the widths of its spans.
pub open spec fn spans_width(spans: Seq<Seq<char>>) -> int
    decreases spans.len(),
{
    if spans.len() == 0 {
        0
    } else {
        spans_width(spans.drop_last()) + span_width_of(spans.last())
    }
}

/// Display width of a text: the width of its widest line (zero for no line).
pub open spec fn text_width(lines: Seq<Seq<Seq<char>>>) -> int
    decreases lines.len(),
{
    if lines.len() == 0 {
        0
    } else {
        let rest = text_width(lines.drop_last());
        let last = spans_width(lines.last());
        if last > rest {
            last
        } else {
            rest
        }
    }
}

/// `c` is the piece of text read from `s`.
pub open spec fn cell_of(c: CellText, s: Seq<char>) -> bool {
    &&& c.raw@ == s
    &&& lines_view(c.lines@) == ansi_plain_spans(s)
    &&& c.width == text_width(ansi_plain_spans(s))
}

/// `c` is the empty piece of text: one line without spans.
pub open spec fn empty_cell(c: CellText) -> bool {
    &&& c.raw@ == Seq::<char>::empty()
    &&& lines_view(c.lines@) == seq![Seq::<Seq<char>>::empty()]
    &&& c.width == 0
}

/// Whether every string of `f` reads as text of a width a `usize` can count.
pub open spec fn all_measurable(f: Seq<String>) -> bool {
    forall|i: int| 0 <= i < f.len() ==> text_width(ansi_plain_spans(#[trigger] f[i]@)) <= usize::MAX
}

/// Index of the type line among the formatter's strings.
pub open spec fn type_index(has_title: bool) -> int {
    if has_title {
        1
    } else {
        0
    }
}

/// Reads one formatted string as ANSI-styled text and measures it.
pub fn parse_cell(s: String) -> (r: Result<CellText, FormatError>)
    ensures
        r is Ok <==> text_width(ansi_plain_spans(s@)) <= usize::MAX,
        r matches Ok(c) ==> cell_of(c, s@),
        r matches Err(e) ==> e == FormatError::TooWide,
{
    let lines = match ansi_spans(&s) {
        Ok(lines) => lines,
        Err(_) => return Err(FormatError::UnparsableText),
    };
    let ghost lv = lines_view(lines@);
    let mut widest: u128 = 0;
    let mut i: usize = 0;
    while i < lines.len()
        invariant
            i <= lines@.len(),
            lv == lines_view(lines@),
            lv.len() == lines@.len(),
            widest == text_width(lv.take(i as int)),
            widest <= 0xFFFF_FFFF_FFFF_FFFF_FFFF_FFFF_FFFF_FFFFu128,
        decreases lines@.len() - i,
    {
        let line = &lines[i];
        let mut sum: u128 = 0;
        let mut j: usize = 0;
        let ghost spans = lv[i as int];
        assert(spans == strings_view(line@));
        while j < line.len()
            invariant
                j <= line@.len(),
                spans == strings_view(line@),
                sum == spans_width(spans.take(j as int)),
                sum <= j * 0xFFFF_FFFF_FFFF_FFFFu128,
                j <= 0xFFFF_FFFF_FFFF_FFFFu128,
            decreases line@.len() - j,
        {
            let w = span_width(line[j].as_str());
            proof {
                assert(spans.take(j as int + 1).drop_last() =~= spans.take(j as int));
                assert(spans.take(j as int + 1).last() == line@[j as int]@);
                assert(w <= 0xFFFF_FFFF_FFFF_FFFFu128);
                assert((j + 1) * 0xFFFF_FFFF_FFFF_FFFFu128 == j * 0xFFFF_FFFF_FFFF_FFFFu128 + 0xFFFF_FFFF_FFFF_FFFFu128)
                    by (nonlinear_arith);
                assert(j * 0xFFFF_FFFF_FFFF_FFFFu128 <= 0xFFFF_FFFF_FFFF_FFFFu128 * 0xFFFF_FFFF_FFFF_FFFFu128 - 0xFFFF_FFFF_FFFF_FFFFu128)
                    by (nonlinear_arith)
                    requires j < 0xFFFF_FFFF_FFFF_FFFFu128;
            }
            sum = sum + w as u128;
            j = j + 1;
        }
        proof {
            assert(spans.take(line@.len() as int) =~= spans);
            assert(lv.take(i as int + 1).drop_last() =~= lv.take(i as int));
            assert(lv.take(i as int + 1).last() == spans);
            assert(line@.len() * 0xFFFF_FFFF_FFFF_FFFFu128 <= 0xFFFF_FFFF_FFFF_FFFFu128 * 0xFFFF_FFFF_FFFF_FFFFu128)
                by (nonlinear_arith)
                requires line@.len() <= 0xFFFF_FFFF_FFFF_FFFFu128;
        }
        if sum > widest {
            widest = sum;
        }
        i = i + 1;
    }
    proof {
        assert(lv.take(lines@.len() as int) =~= lv);
    }
    if widest > usize::MAX as u128 {
        return Err(FormatError::TooWide);
    }
    Ok(CellText { raw: s, lines, width: widest as usize })
}

/// The empty piece of text.
pub fn empty_cell_text() -> (r: CellText)
    ensures
        empty_cell(r),
{
    let mut lines: Vec<Vec<String>> = Vec::new();
    let no_spans: Vec<String> = Vec::new();
    lines.push(no_spans);
    proof {
        assert(strings_view(lines@[0]@) =~= Seq::<Seq<char>>::empty());
        assert(lines_view(lines@) =~= seq![Seq::<Seq<char>>::empty()]);
    }
    CellText { raw: String::new(), lines, width: 0 }
}

/// The width argument handed to the pillar formatter: the truncation width,
/// or 100000 (no truncation in practice) when truncation is off.
pub fn pillar_width(truncate: Option<usize>) -> (r: i32)
    ensures
        r == (match truncate {
            Some(n) => n,
            None => 100_000usize,
        }) as i32,
{
    let truncation_len = match truncate {
        Some(n) => n,
        None => 100_000,
    };
    #[verifier::truncate]
    (truncation_len as i32)
}

/// Reads the formatter's strings for one column: the first is the title
/// when the column has one, the next the type line (empty if missing) and
/// the rest the values.  The column is as wide as its widest piece.
pub fn format_col(has_title: bool, formatted: Vec<String>) -> (r: Result<TableCol, FormatError>)
    ensures
        r is Ok <==> all_measurable(formatted@),
        r matches Err(e) ==> e == FormatError::TooWide,
        r matches Ok(col) ==> ({
            let f = formatted@;
            let ti = type_index(has_title);
            &&& (col.title_text is Some <==> (has_title && f.len() > 0))
            &&& (col.title_text matches Some(t) ==> cell_of(t, f[0]@))
            &&& (f.len() > ti ==> cell_of(col.type_text, f[ti]@))
            &&& (f.len() <= ti ==> empty_cell(col.type_text))
            &&& col.values_text@.len() == (if f.len() > ti + 1 { f.len() - ti - 1 } else { 0 })
            &&& (forall|k: int| 0 <= k < col.values_text@.len() ==> cell_of(#[trigger] col.values_text@[k], f[ti + 1 + k]@))
            &&& col.width == max_width(col.title_text, col.type_text, col.values_text@)
        }),
{
    let ghost f = formatted@;
    let count = formatted.len();
    assert(f.len() <= usize::MAX);
    let mut texts: Vec<CellText> = Vec::new();
    let mut k: usize = 0;
    for item in it: formatted.into_iter()
        invariant
            f == it.seq(),
            k == it.index(),
            f.len() <= usize::MAX,
            texts@.len() == k,
            forall|i: int| 0 <= i < k ==> cell_of(#[trigger] texts@[i], f[i]@),
            forall|i: int| 0 <= i < k ==> text_width(ansi_plain_spans(#[trigger] f[i]@)) <= usize::MAX,
    {
        assert(k < f.len());
        let text = parse_cell(item);
        match text {
            Ok(t) => texts.push(t),
            Err(e) => {
                proof {
                    assert(!all_measurable(f)) by {
                        assert(text_width(ansi_plain_spans(f[k as int]@)) > usize::MAX);
                    }
                }
                return Err(e);
            },
        }
        k = k + 1;
    }
    assert(texts@.len() == f.len());
    let ghost all = texts@;
    assert(all.len() <= usize::MAX);
    let mut rest: Vec<CellText> = Vec::new();
    let mut title_text: Option<CellText> = None;
    let mut type_text: Option<CellText> = None;
    let mut idx: usize = 0;
    for t in it: texts.into_iter()
        invariant
            all == it.seq(),
            idx == it.index(),
            all.len() <= usize::MAX,
            has_title ==> (title_text is Some <==> idx > 0),
            !has_title ==> title_text is None,
            title_text matches Some(tt) ==> tt == all[0],
            (type_text is Some <==> idx > type_index(has_title)),
            type_text matches Some(tt) ==> tt == all[type_index(has_title)],
            rest@.len() == (if idx > type_index(has_title) + 1 { idx - type_index(has_title) - 1 } else { 0 }),
            forall|j: int| 0 <= j < rest@.len() ==> #[trigger] rest@[j] == all[type_index(has_title) + 1 + j],
    {
        assert(idx < all.len());
        if has_title && idx == 0 {
            title_text = Some(t);
        } else if type_text.is_none() {
            type_text = Some(t);
        } else {
            rest.push(t);
        }
        idx = idx + 1;
    }
    let type_text = match type_text {
        Some(t) => t,
        None => empty_cell_text(),
    };
    let width = column_width(&title_text, &type_text, &rest);
    Ok(TableCol { title_text, type_text, values_text: rest, width })
}

/// Width of the widest of the values (zero for no value).
pub open spec fn values_width(values: Seq<CellText>) -> int
    decreases values.len(),
{
    if values.len() == 0 {
        0
    } else {
        let rest = values_width(values.drop_last());
        if values.last().width > rest {
            values.last().width as int
        } else {
            rest
        }
    }
}

/// Width of a column: the widest of its title (if any), type line and values.
pub open spec fn max_width(title: Option<CellText>, type_text: CellText, values: Seq<CellText>) -> int {
    let t = match title {
        Some(c) => c.width as int,
        None => 0,
    };
    let a = if t >= type_text.width { t } else { type_text.width as int };
    let v = values_width(values);
    if a >= v {
        a
    } else {
        v
    }
}

proof fn lemma_values_width_bounds(values: Seq<CellText>)
    ensures
        values_width(values) >= 0,
        forall|k: int| 0 <= k < values.len() ==> #[trigger] values[k].width <= values_width(values),
        values_width(values) == 0 || exists|k: int| 0 <= k < values.len() && #[trigger] values[k].width == values_width(values),
    decreases values.len(),
{
    if values.len() > 0 {
        let front = values.drop_last();
        lemma_values_width_bounds(front);
        assert forall|k: int| 0 <= k < values.len() implies #[trigger] values[k].width <= values_width(values) by {
            if k < values.len() - 1 {
                assert(values[k] == front[k]);
            }
        }
        if values_width(values) != 0 && values_width(values) != values.last().width {
            let k = choose|k: int| 0 <= k < front.len() && #[trigger] front[k].width == values_width(front);
            assert(values[k] == front[k]);
        }
    }
}

/// A column is exactly as wide as its widest piece: its title (if any), its
/// type line and each of its values fit in the column's width, and the width
/// is that of one of them.
pub proof fn lemma_column_width_is_widest_piece(title: Option<CellText>, type_text: CellText, values: Seq<CellText>)
    ensures
        type_text.width <= max_width(title, type_text, values),
        title matches Some(t) ==> t.width <= max_width(title, type_text, values),
        forall|k: int| 0 <= k < values.len() ==> #[trigger] values[k].width <= max_width(title, type_text, values),
        max_width(title, type_text, values) == type_text.width
            || (title matches Some(t) && max_width(title, type_text, values) == t.width)
            || exists|k: int| 0 <= k < values.len() && #[trigger] values[k].width == max_width(title, type_text, values),
{
    lemma_values_width_bounds(values);
}

/// Width of a column: the widest of its title (if any), type line and values.
pub fn column_width(title: &Option<CellText>, type_text: &CellText, values: &Vec<CellText>) -> (r: usize)
    ensures
        r == max_width(*title, *type_text, values@),
{
    let mut values_max: usize = 0;
    let mut i: usize = 0;
    while i < values.len()
        invariant
            i <= values@.len(),
            values_max == values_width(values@.take(i as int)),
        decreases values@.len() - i,
    {
        proof {
            assert(values@.take(i as int + 1).drop_last() =~= values@.take(i as int));
        }
        if values[i].width > values_max {
            values_max = values[i].width;
        }
        i = i + 1;
    }
    proof {
        assert(values@.take(values@.len() as int) =~= values@);
    }
    let t = match title {
        Some(c) => c.width,
        None => 0,
    };
    let a = if t >= type_text.width { t } else { type_text.width };
    if a >= values_max {
        a
    } else {
        values_max
    }
}

/// Turns columns of cells into rows of cells: row `i` holds the `i`-th cell
/// of every column.  The first column decides how many rows there are;
/// a column with fewer cells is an error, and cells past that count are dropped.
pub fn transpose_cols<T>(cols: Vec<Vec<T>>) -> (r: Result<Vec<Vec<T>>, FormatError>)
    ensures
        (cols@.len() == 0 || cols@[0].len() == 0) ==> (r matches Ok(rows) && rows@.len() == 0),
        (cols@.len() > 0 && cols@[0].len() > 0) ==> ({
            let n = cols@[0].len();
            &&& (r is Ok <==> forall|j: int| 0 <= j < cols@.len() ==> #[trigger] cols@[j].len() >= n)
            &&& (r matches Err(e) ==> e == FormatError::MismatchedColumns)
            &&& (r matches Ok(rows) ==> {
                &&& rows@.len() == n
                &&& forall|i: int| 0 <= i < n ==> #[trigger] rows@[i].len() == cols@.len()
                &&& forall|i: int, j: int| 0 <= i < n && 0 <= j < cols@.len() ==> #[trigger] rows@[i]@[j] == cols@[j]@[i]
            })
        }),
{
    if cols.len() == 0 || cols[0].len() == 0 {
        return Ok(Vec::new());
    }
    let num_rows = cols[0].len();
    let mut j: usize = 0;
    while j < cols.len()
        invariant
            j <= cols@.len(),
            num_rows == cols@[0].len(),
            forall|k: int| 0 <= k < j ==> #[trigger] cols@[k].len() >= num_rows,
        decreases cols@.len() - j,
    {
        if cols[j].len() < num_rows {
            return Err(FormatError::MismatchedColumns);
        }
        j = j + 1;
    }
    let ghost c = cols@;
    let ncols_in = cols.len();
    assert(c.len() > 0);
    let mut rows: Vec<Vec<T>> = Vec::new();
    let mut i: usize = 0;
    while i < num_rows
        invariant
            i <= num_rows,
            rows@.len() == i,
            forall|k: int| 0 <= k < i ==> #[trigger] rows@[k]@.len() == 0,
        decreases num_rows - i,
    {
        rows.push(Vec::new());
        i = i + 1;
    }
    let mut jj: usize = 0;
    for col in it: cols.into_iter()
        invariant
            c == it.seq(),
            jj == it.index(),
            c.len() > 0,
            c.len() <= usize::MAX,
            num_rows == c[0].len(),
            forall|k: int| 0 <= k < c.len() ==> #[trigger] c[k].len() >= num_rows,
            rows@.len() == num_rows,
            forall|k: int| 0 <= k < num_rows ==> #[trigger] rows@[k]@.len() == jj,
            forall|k: int, m: int| 0 <= k < num_rows && 0 <= m < jj ==> #[trigger] rows@[k]@[m] == c[m]@[k],
    {
        let ghost col_view = col@;
        let col_len = col.len();
        assert(jj < c.len());
        assert(col_view == c[jj as int]@);
        assert(c[jj as int].len() >= num_rows);
        let mut ii: usize = 0;
        for x in it2: col.into_iter()
            invariant
                col_view == it2.seq(),
                ii == it2.index(),
                col_view.len() <= usize::MAX,
                col_view.len() >= num_rows,
                rows@.len() == num_rows,
                forall|k: int| 0 <= k < num_rows ==> #[trigger] rows@[k]@.len() == (if k < ii { jj + 1 } else { jj as int }),
                forall|k: int, m: int| 0 <= k < num_rows && 0 <= m < jj ==> #[trigger] rows@[k]@[m] == c[m]@[k],
                forall|k: int| 0 <= k < num_rows && k < ii ==> #[trigger] rows@[k]@[jj as int] == col_view[k],
        {
            assert(ii < col_view.len());
            if ii < num_rows {
                rows[ii].push(x);
            }
            ii = ii + 1;
        }
        jj = jj + 1;
    }
    Ok(rows)
}

} // verus!
