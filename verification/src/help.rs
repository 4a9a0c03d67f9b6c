//! The help screen: the key bindings, in two columns.
use vstd::prelude::*;
use crate::text::push_str;

verus! {

/// The key bindings shown on the help screen: keys and what they do.
pub fn keybindings() -> (r: Vec<(&'static str, &'static str)>)
    ensures
        r@.len() == 12,
        r@[0].0@ == "hjkl (or ← ↓ ↑ →)"@ && r@[0].1@ == "Move cursor"@,
        r@[1].0@ == "HJKL (or Shift + ← ↓ ↑ →)"@ && r@[1].1@ == "Page over"@,
        r@[2].0@ == "g"@ && r@[2].1@ == "Select top row"@,
        r@[3].0@ == "<n>G"@ && r@[3].1@ == "Select bottom row (or <n> row)"@,
        r@[4].0@ == "^"@ && r@[4].1@ == "Select first column"@,
        r@[5].0@ == "$"@ && r@[5].1@ == "Select last column"@,
        r@[6].0@ == "<n>t"@ && r@[6].1@ == "Toggle truncation (or set truncation to <n> characters)"@,
        r@[7].0@ == "Enter"@ && r@[7].1@ == "View highlighted cell"@,
        r@[8].0@ == "esc"@ && r@[8].1@ == "View parent data structure"@,
        r@[9].0@ == "y"@ && r@[9].1@ == "Yank (copy) selected cell"@,
        r@[10].0@ == "?"@ && r@[10].1@ == "View this help screen"@,
        r@[11].0@ == "q"@ && r@[11].1@ == "Quit"@,
{
    let mut v: Vec<(&'static str, &'static str)> = Vec::new();
    v.push(("hjkl (or ← ↓ ↑ →)", "Move cursor"));
    v.push(("HJKL (or Shift + ← ↓ ↑ →)", "Page over"));
    v.push(("g", "Select top row"));
    v.push(("<n>G", "Select bottom row (or <n> row)"));
    v.push(("^", "Select first column"));
    v.push(("$", "Select last column"));
    v.push(("<n>t", "Toggle truncation (or set truncation to <n> characters)"));
    v.push(("Enter", "View highlighted cell"));
    v.push(("esc", "View parent data structure"));
    v.push(("y", "Yank (copy) selected cell"));
    v.push(("?", "View this help screen"));
    v.push(("q", "Quit"));
    v
}

/// The bindings of the left and right columns: the left one takes the
/// first half, rounded up.
pub fn split_bindings(bindings: Vec<(&'static str, &'static str)>) -> (r: (
    Vec<(&'static str, &'static str)>,
    Vec<(&'static str, &'static str)>,
))
    ensures
        r.0@ == bindings@.take(((bindings@.len() + 1) / 2) as int),
        r.1@ == bindings@.skip(((bindings@.len() + 1) / 2) as int),
{
    let n = bindings.len();
    let split_at = n / 2 + n % 2;
    let mut left = bindings;
    let right = left.split_off(split_at);
    (left, right)
}

/// One line of the help screen.
pub enum HelpLine {
    /// A key, highlighted.
    Key(String),
    /// What the key does, indented.
    Description(String),
    /// A blank line between bindings.
    Blank,
}

/// The lines of a column of bindings: each key, then its description
/// indented by two blanks, then a blank line.
pub fn bindings_lines(bindings: &Vec<(&'static str, &'static str)>) -> (r: Vec<HelpLine>)
    ensures
        r@.len() == 3 * bindings@.len(),
        forall|i: int| 0 <= i < bindings@.len() ==> {
            &&& (#[trigger] r@[3 * i]) matches HelpLine::Key(k) && k@ == bindings@[i].0@
            &&& r@[3 * i + 1] matches HelpLine::Description(d) && d@ == seq![' ', ' '] + bindings@[i].1@
            &&& r@[3 * i + 2] matches HelpLine::Blank
        },
{
    let mut lines: Vec<HelpLine> = Vec::new();
    let mut i: usize = 0;
    while i < bindings.len()
        invariant
            i <= bindings@.len(),
            lines@.len() == 3 * i,
            forall|k: int| 0 <= k < i ==> {
                &&& (#[trigger] lines@[3 * k]) matches HelpLine::Key(key) && key@ == bindings@[k].0@
                &&& lines@[3 * k + 1] matches HelpLine::Description(d) && d@ == seq![' ', ' '] + bindings@[k].1@
                &&& lines@[3 * k + 2] matches HelpLine::Blank
            },
        decreases bindings@.len() - i,
    {
        let (key, desc) = bindings[i];
        let mut k = String::new();
        push_str(&mut k, key);
        let mut d = String::new();
        push_str(&mut d, "  ");
        push_str(&mut d, desc);
        proof {
            reveal_strlit("  ");
            assert(d@ =~= seq![' ', ' '] + desc@);
            assert(k@ =~= key@);
        }
        let ghost before = lines@;
        lines.push(HelpLine::Key(k));
        lines.push(HelpLine::Description(d));
        lines.push(HelpLine::Blank);
        proof {
            assert forall|m: int| 0 <= m < i + 1 implies {
                &&& (#[trigger] lines@[3 * m]) matches HelpLine::Key(key) && key@ == bindings@[m].0@
                &&& lines@[3 * m + 1] matches HelpLine::Description(dd) && dd@ == seq![' ', ' '] + bindings@[m].1@
                &&& lines@[3 * m + 2] matches HelpLine::Blank
            } by {
                if m < i {
                    assert(lines@[3 * m] == before[3 * m]);
                    assert(lines@[3 * m + 1] == before[3 * m + 1]);
                    assert(lines@[3 * m + 2] == before[3 * m + 2]);
                }
            }
        }
        i = i + 1;
    }
    lines
}

} // verus!
