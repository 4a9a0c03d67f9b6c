//! The text copied to the clipboard for the selected cell.
use vstd::prelude::*;
use crate::format::TableCol;
use crate::print::{is_white_space, is_whitespace};
use crate::term::lines_view;
use crate::text::{concat_all, push_char, strings_view};

verus! {

/// Why there is nothing to copy.
pub enum YankError {
    /// The formatter produced no value for the selected cell.
    NoValue,
}

/// Lines joined with a line break between each two.
pub open spec fn join_lines(lines: Seq<Seq<char>>) -> Seq<char>
    decreases lines.len(),
{
    if lines.len() == 0 {
        Seq::empty()
    } else if lines.len() == 1 {
        lines[0]
    } else {
        join_lines(lines.drop_last()) + seq!['\n'] + lines.last()
    }
}

/// The plain text of a piece of formatted text: each line's spans run
/// together, lines joined with line breaks.
pub open spec fn plain_text(lines: Seq<Seq<Seq<char>>>) -> Seq<char> {
    join_lines(lines.map_values(|spans: Seq<Seq<char>>| concat_all(spans)))
}

/// Index of the first character of `s` that is not white space (or its length).
pub open spec fn first_solid(s: Seq<char>, i: int) -> int
    decreases s.len() - i,
{
    if i >= s.len() || i < 0 {
        s.len() as int
    } else if !is_white_space(s[i]) {
        i
    } else {
        first_solid(s, i + 1)
    }
}

/// One past the index of the last character of `s` before `j` that is not white space (or `lo`).
pub open spec fn end_solid(s: Seq<char>, lo: int, j: int) -> int
    decreases j - lo,
{
    if j <= lo {
        lo
    } else if !is_white_space(s[j - 1]) {
        j
    } else {
        end_solid(s, lo, j - 1)
    }
}

/// `s` without leading and trailing white space (as `str::trim`).
pub open spec fn trimmed(s: Seq<char>) -> Seq<char> {
    let lo = first_solid(s, 0);
    s.subrange(lo, end_solid(s, lo, s.len() as int))
}

/// `s` without leading and trailing white space.
pub fn trim(s: &Vec<char>) -> (r: String)
    ensures
        r@ == trimmed(s@),
{
    let mut lo: usize = 0;
    while lo < s.len() && is_whitespace(s[lo])
        invariant
            lo <= s@.len(),
            first_solid(s@, lo as int) == first_solid(s@, 0),
        decreases s@.len() - lo,
    {
        lo = lo + 1;
    }
    let mut hi: usize = s.len();
    while hi > lo && is_whitespace(s[hi - 1])
        invariant
            lo <= hi <= s@.len(),
            lo == first_solid(s@, 0),
            end_solid(s@, lo as int, hi as int) == end_solid(s@, lo as int, s@.len() as int),
        decreases hi - lo,
    {
        hi = hi - 1;
    }
    let mut out = String::new();
    let mut k = lo;
    while k < hi
        invariant
            lo <= k <= hi <= s@.len(),
            out@ == s@.subrange(lo as int, k as int),
        decreases hi - k,
    {
        push_char(&mut out, s[k]);
        k = k + 1;
        assert(out@ =~= s@.subrange(lo as int, k as int));
    }
    out
}

/// Appends the characters of `t`.
fn push_chars(out: &mut Vec<char>, t: &str)
    ensures
        final(out)@ == old(out)@ + t@,
{
    for c in it: t.chars()
        invariant
            it.seq() == t@,
            out@ == old(out)@ + t@.take(it.index() as int),
    {
        assert(c == t@[it.index() as int]);
        out.push(c);
        assert(out@ =~= old(out)@ + t@.take(it.index() + 1));
    }
    assert(t@.take(t@.len() as int) =~= t@);
}

/// The text copied for the selected cell, from the formatted column holding
/// just that cell: its first value as plain text, without surrounding white space.
pub fn yank_text(col: &TableCol) -> (r: Result<String, YankError>)
    ensures
        col.values_text@.len() == 0 ==> r is Err,
        col.values_text@.len() > 0 ==> (r matches Ok(s) && s@ == trimmed(plain_text(lines_view(col.values_text@[0].lines@)))),
{
    if col.values_text.len() == 0 {
        return Err(YankError::NoValue);
    }
    let value = &col.values_text[0];
    let lines = &value.lines;
    let ghost lv = lines_view(lines@);
    let ghost joined = lv.map_values(|spans: Seq<Seq<char>>| concat_all(spans));
    let mut text: Vec<char> = Vec::new();
    let mut i: usize = 0;
    while i < lines.len()
        invariant
            i <= lines@.len(),
            lv == lines_view(lines@),
            joined == lv.map_values(|spans: Seq<Seq<char>>| concat_all(spans)),
            text@ == join_lines(joined.take(i as int)),
        decreases lines@.len() - i,
    {
        let line = &lines[i];
        let ghost before = text@;
        if i > 0 {
            text.push('\n');
        }
        let ghost mid = text@;
        let mut j: usize = 0;
        while j < line.len()
            invariant
                j <= line@.len(),
                text@ == mid + concat_all(strings_view(line@).take(j as int)),
            decreases line@.len() - j,
        {
            proof {
                assert(strings_view(line@).take(j as int + 1).drop_last() =~= strings_view(line@).take(j as int));
            }
            push_chars(&mut text, line[j].as_str());
            j = j + 1;
            assert(text@ =~= mid + concat_all(strings_view(line@).take(j as int)));
        }
        proof {
            assert(strings_view(line@).take(line@.len() as int) =~= strings_view(line@));
            assert(joined[i as int] == concat_all(strings_view(line@)));
            assert(joined.take(i as int + 1).drop_last() =~= joined.take(i as int));
            if i == 0 {
                assert(joined.take(1) =~= seq![joined[0]]);
                assert(text@ =~= joined[0]);
            } else {
                assert(text@ =~= before + seq!['\n'] + joined[i as int]);
            }
        }
        i = i + 1;
    }
    proof {
        assert(joined.take(lines@.len() as int) =~= joined);
    }
    Ok(trim(&text))
}

} // verus!
