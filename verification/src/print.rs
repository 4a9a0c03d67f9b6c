//! Rendering a drawn frame as text with ANSI escape codes, so the last
//! screen can be printed once the viewer is closed.
use vstd::prelude::*;
use crate::text::{decimal, push_char, push_decimal, push_str};

verus! {

/// A terminal colour.
#[derive(PartialEq, Eq, Structural, Clone, Copy)]
pub enum TermColor {
    Reset,
    Black,
    Red,
    Green,
    Yellow,
    Blue,
    Magenta,
    Cyan,
    Gray,
    DarkGray,
    LightRed,
    LightGreen,
    LightYellow,
    LightBlue,
    LightMagenta,
    LightCyan,
    White,
    Rgb(u8, u8, u8),
    Indexed(u8),
}

/// A set of text modifiers.
#[derive(PartialEq, Eq, Structural, Clone, Copy)]
pub struct Modifiers {
    pub bold: bool,
    pub dim: bool,
    pub italic: bool,
    pub underlined: bool,
    pub slow_blink: bool,
    pub rapid_blink: bool,
    pub reversed: bool,
    pub hidden: bool,
    pub crossed_out: bool,
}

/// The style of a cell: colours and the modifiers it adds and removes.
#[derive(PartialEq, Eq, Structural, Clone, Copy)]
pub struct CellStyle {
    pub fg: Option<TermColor>,
    pub bg: Option<TermColor>,
    pub underline_color: Option<TermColor>,
    pub add_modifier: Modifiers,
    pub sub_modifier: Modifiers,
}

/// One cell of a drawn frame: the text it shows and its style.
pub struct GridCell {
    pub symbol: String,
    pub style: CellStyle,
}

/// A drawn frame, row by row.
pub struct CellGrid {
    pub rows: Vec<Vec<GridCell>>,
}

/// Whether `c` is white space (Unicode `White_Space`, as `char::is_whitespace`).
pub open spec fn is_white_space(c: char) -> bool {
    let u = c as u32;
    (0x9 <= u <= 0xD) || u == 0x20 || u == 0x85 || u == 0xA0 || u == 0x1680 || (0x2000 <= u <= 0x200A)
        || u == 0x2028 || u == 0x2029 || u == 0x202F || u == 0x205F || u == 0x3000
}

/// Whether `c` is white space.
pub fn is_whitespace(c: char) -> (r: bool)
    ensures
        r == is_white_space(c),
{
    let u = c as u32;
    (0x9 <= u && u <= 0xD) || u == 0x20 || u == 0x85 || u == 0xA0 || u == 0x1680 || (0x2000 <= u && u <= 0x200A)
        || u == 0x2028 || u == 0x2029 || u == 0x202F || u == 0x205F || u == 0x3000
}

/// Whether a cell's text is blank (empty or only white space).
pub open spec fn is_blank(s: Seq<char>) -> bool {
    forall|i: int| 0 <= i < s.len() ==> is_white_space(#[trigger] s[i])
}

/// Whether a cell's text is blank.
pub fn blank(s: &str) -> (r: bool)
    ensures
        r == is_blank(s@),
{
    let mut all_white = true;
    for c in it: s.chars()
        invariant
            it.seq() == s@,
            all_white == (forall|i: int| 0 <= i < it.index() ==> is_white_space(#[trigger] s@[i])),
    {
        assert(c == s@[it.index() as int]);
        if !is_whitespace(c) {
            all_white = false;
        }
    }
    all_white
}

/// SGR parameters that set a foreground colour (`bright_base` 90) or a
/// background colour (`bright_base` 100): none for the terminal's default.
pub open spec fn color_code(color: TermColor, normal_base: nat, bright_base: nat, extended: nat) -> Option<Seq<char>> {
    match color {
        TermColor::Reset => None,
        TermColor::Black => Some(decimal(normal_base)),
        TermColor::Red => Some(decimal(normal_base + 1)),
        TermColor::Green => Some(decimal(normal_base + 2)),
        TermColor::Yellow => Some(decimal(normal_base + 3)),
        TermColor::Blue => Some(decimal(normal_base + 4)),
        TermColor::Magenta => Some(decimal(normal_base + 5)),
        TermColor::Cyan => Some(decimal(normal_base + 6)),
        TermColor::Gray => Some(decimal(normal_base + 7)),
        TermColor::DarkGray => Some(decimal(bright_base)),
        TermColor::LightRed => Some(decimal(bright_base + 1)),
        TermColor::LightGreen => Some(decimal(bright_base + 2)),
        TermColor::LightYellow => Some(decimal(bright_base + 3)),
        TermColor::LightBlue => Some(decimal(bright_base + 4)),
        TermColor::LightMagenta => Some(decimal(bright_base + 5)),
        TermColor::LightCyan => Some(decimal(bright_base + 6)),
        TermColor::White => Some(decimal(bright_base + 7)),
        TermColor::Rgb(r, g, b) => Some(
            decimal(extended) + seq![';', '2', ';'] + decimal(r as nat) + seq![';'] + decimal(g as nat) + seq![';']
                + decimal(b as nat),
        ),
        TermColor::Indexed(i) => Some(decimal(extended) + seq![';', '5', ';'] + decimal(i as nat)),
    }
}

/// SGR parameters for a foreground colour.
pub open spec fn fg_code(color: TermColor) -> Option<Seq<char>> {
    color_code(color, 30, 90, 38)
}

/// SGR parameters for a background colour.
pub open spec fn bg_code(color: TermColor) -> Option<Seq<char>> {
    color_code(color, 40, 100, 48)
}

/// The standard SGR colour codes: the eight normal colours are 30-37 as
/// foreground and 40-47 as background, the eight bright ones 90-97 and
/// 100-107, the terminal's default colour sets nothing, and an indexed colour
/// `i` is `38;5;i` or `48;5;i`.
pub proof fn lemma_colour_codes(i: u8)
    ensures
        fg_code(TermColor::Reset) is None && bg_code(TermColor::Reset) is None,
        fg_code(TermColor::Black) == Some(seq!['3', '0']) && bg_code(TermColor::Black) == Some(seq!['4', '0']),
        fg_code(TermColor::Red) == Some(seq!['3', '1']) && bg_code(TermColor::Red) == Some(seq!['4', '1']),
        fg_code(TermColor::Green) == Some(seq!['3', '2']) && bg_code(TermColor::Green) == Some(seq!['4', '2']),
        fg_code(TermColor::Yellow) == Some(seq!['3', '3']) && bg_code(TermColor::Yellow) == Some(seq!['4', '3']),
        fg_code(TermColor::Blue) == Some(seq!['3', '4']) && bg_code(TermColor::Blue) == Some(seq!['4', '4']),
        fg_code(TermColor::Magenta) == Some(seq!['3', '5']) && bg_code(TermColor::Magenta) == Some(seq!['4', '5']),
        fg_code(TermColor::Cyan) == Some(seq!['3', '6']) && bg_code(TermColor::Cyan) == Some(seq!['4', '6']),
        fg_code(TermColor::Gray) == Some(seq!['3', '7']) && bg_code(TermColor::Gray) == Some(seq!['4', '7']),
        fg_code(TermColor::DarkGray) == Some(seq!['9', '0']) && bg_code(TermColor::DarkGray) == Some(seq!['1', '0', '0']),
        fg_code(TermColor::LightRed) == Some(seq!['9', '1']) && bg_code(TermColor::LightRed) == Some(seq!['1', '0', '1']),
        fg_code(TermColor::LightGreen) == Some(seq!['9', '2']) && bg_code(TermColor::LightGreen) == Some(seq!['1', '0', '2']),
        fg_code(TermColor::LightYellow) == Some(seq!['9', '3']) && bg_code(TermColor::LightYellow) == Some(seq!['1', '0', '3']),
        fg_code(TermColor::LightBlue) == Some(seq!['9', '4']) && bg_code(TermColor::LightBlue) == Some(seq!['1', '0', '4']),
        fg_code(TermColor::LightMagenta) == Some(seq!['9', '5']) && bg_code(TermColor::LightMagenta) == Some(seq!['1', '0', '5']),
        fg_code(TermColor::LightCyan) == Some(seq!['9', '6']) && bg_code(TermColor::LightCyan) == Some(seq!['1', '0', '6']),
        fg_code(TermColor::White) == Some(seq!['9', '7']) && bg_code(TermColor::White) == Some(seq!['1', '0', '7']),
        fg_code(TermColor::Indexed(i)) == Some(seq!['3', '8', ';', '5', ';'] + decimal(i as nat)),
        bg_code(TermColor::Indexed(i)) == Some(seq!['4', '8', ';', '5', ';'] + decimal(i as nat)),
{
    reveal_with_fuel(decimal, 4);
    assert(decimal(38) =~= seq!['3', '8']);
    assert(decimal(48) =~= seq!['4', '8']);
    assert(decimal(30) =~= seq!['3', '0']);
    assert(decimal(31) =~= seq!['3', '1']);
    assert(decimal(32) =~= seq!['3', '2']);
    assert(decimal(33) =~= seq!['3', '3']);
    assert(decimal(34) =~= seq!['3', '4']);
    assert(decimal(35) =~= seq!['3', '5']);
    assert(decimal(36) =~= seq!['3', '6']);
    assert(decimal(37) =~= seq!['3', '7']);
    assert(decimal(40) =~= seq!['4', '0']);
    assert(decimal(41) =~= seq!['4', '1']);
    assert(decimal(42) =~= seq!['4', '2']);
    assert(decimal(43) =~= seq!['4', '3']);
    assert(decimal(44) =~= seq!['4', '4']);
    assert(decimal(45) =~= seq!['4', '5']);
    assert(decimal(46) =~= seq!['4', '6']);
    assert(decimal(47) =~= seq!['4', '7']);
    assert(decimal(90) =~= seq!['9', '0']);
    assert(decimal(91) =~= seq!['9', '1']);
    assert(decimal(92) =~= seq!['9', '2']);
    assert(decimal(93) =~= seq!['9', '3']);
    assert(decimal(94) =~= seq!['9', '4']);
    assert(decimal(95) =~= seq!['9', '5']);
    assert(decimal(96) =~= seq!['9', '6']);
    assert(decimal(97) =~= seq!['9', '7']);
    assert(decimal(100) =~= seq!['1', '0', '0']);
    assert(decimal(101) =~= seq!['1', '0', '1']);
    assert(decimal(102) =~= seq!['1', '0', '2']);
    assert(decimal(103) =~= seq!['1', '0', '3']);
    assert(decimal(104) =~= seq!['1', '0', '4']);
    assert(decimal(105) =~= seq!['1', '0', '5']);
    assert(decimal(106) =~= seq!['1', '0', '6']);
    assert(decimal(107) =~= seq!['1', '0', '7']);
}

/// `;code` for an optional code.
pub open spec fn param(code: Option<Seq<char>>) -> Seq<char> {
    match code {
        Some(c) => seq![';'] + c,
        None => Seq::empty(),
    }
}

/// `;d` when `on`.
pub open spec fn flag(on: bool, d: char) -> Seq<char> {
    if on {
        seq![';', d]
    } else {
        Seq::empty()
    }
}

/// The escape sequence that selects `style`: a reset, then its foreground
/// and background colours, then bold, dim, italic, underlined, reversed and
/// crossed-out as they are added.
pub open spec fn sgr(style: CellStyle) -> Seq<char> {
    let fg = match style.fg {
        Some(c) => fg_code(c),
        None => None,
    };
    let bg = match style.bg {
        Some(c) => bg_code(c),
        None => None,
    };
    let m = style.add_modifier;
    seq!['\x1b', '[', '0'] + param(fg) + param(bg) + flag(m.bold, '1') + flag(m.dim, '2') + flag(m.italic, '3')
        + flag(m.underlined, '4') + flag(m.reversed, '7') + flag(m.crossed_out, '9') + seq!['m']
}

/// Whether a style draws no colour.
pub open spec fn colourless(style: CellStyle) -> bool {
    &&& (style.fg is None || style.fg == Some(TermColor::Reset))
    &&& (style.bg is None || style.bg == Some(TermColor::Reset))
}

/// Each modifier a style adds selects its standard SGR code: bold 1, dim 2,
/// italic 3, underlined 4, reversed 7, crossed out 9, in that order after the
/// reset; a colourless style with none of them is a bare reset.  Blinking and
/// hidden text are not drawn.
pub proof fn lemma_sgr_modifier_codes(style: CellStyle)
    requires
        colourless(style),
    ensures
        ({
            let m = style.add_modifier;
            let code = |c: char| seq!['\x1b', '[', '0', ';', c, 'm'];
            &&& (!m.bold && !m.dim && !m.italic && !m.underlined && !m.reversed && !m.crossed_out)
                ==> sgr(style) == seq!['\x1b', '[', '0', 'm']
            &&& (m.bold && !m.dim && !m.italic && !m.underlined && !m.reversed && !m.crossed_out) ==> sgr(style) == code('1')
            &&& (!m.bold && m.dim && !m.italic && !m.underlined && !m.reversed && !m.crossed_out) ==> sgr(style) == code('2')
            &&& (!m.bold && !m.dim && m.italic && !m.underlined && !m.reversed && !m.crossed_out) ==> sgr(style) == code('3')
            &&& (!m.bold && !m.dim && !m.italic && m.underlined && !m.reversed && !m.crossed_out) ==> sgr(style) == code('4')
            &&& (!m.bold && !m.dim && !m.italic && !m.underlined && m.reversed && !m.crossed_out) ==> sgr(style) == code('7')
            &&& (!m.bold && !m.dim && !m.italic && !m.underlined && !m.reversed && m.crossed_out) ==> sgr(style) == code('9')
            &&& (m.bold && m.dim && m.italic && m.underlined && m.reversed && m.crossed_out) ==> sgr(style) == seq![
                '\x1b', '[', '0', ';', '1', ';', '2', ';', '3', ';', '4', ';', '7', ';', '9', 'm',
            ]
        }),
{
    let m = style.add_modifier;
    assert(param(None) =~= Seq::<char>::empty());
    let code = |c: char| seq!['\x1b', '[', '0', ';', c, 'm'];
    if !m.bold && !m.dim && !m.italic && !m.underlined && !m.reversed && !m.crossed_out {
        assert(sgr(style) =~= seq!['\x1b', '[', '0', 'm']);
    }
    if m.bold && !m.dim && !m.italic && !m.underlined && !m.reversed && !m.crossed_out {
        assert(sgr(style) =~= code('1'));
    }
    if !m.bold && m.dim && !m.italic && !m.underlined && !m.reversed && !m.crossed_out {
        assert(sgr(style) =~= code('2'));
    }
    if !m.bold && !m.dim && m.italic && !m.underlined && !m.reversed && !m.crossed_out {
        assert(sgr(style) =~= code('3'));
    }
    if !m.bold && !m.dim && !m.italic && m.underlined && !m.reversed && !m.crossed_out {
        assert(sgr(style) =~= code('4'));
    }
    if !m.bold && !m.dim && !m.italic && !m.underlined && m.reversed && !m.crossed_out {
        assert(sgr(style) =~= code('7'));
    }
    if !m.bold && !m.dim && !m.italic && !m.underlined && !m.reversed && m.crossed_out {
        assert(sgr(style) =~= code('9'));
    }
    if m.bold && m.dim && m.italic && m.underlined && m.reversed && m.crossed_out {
        assert(sgr(style) =~= seq!['\x1b', '[', '0', ';', '1', ';', '2', ';', '3', ';', '4', ';', '7', ';', '9', 'm']);
    }
}

/// The escape sequence that resets all styling.
pub open spec fn reset_code() -> Seq<char> {
    seq!['\x1b', '[', '0', 'm']
}

/// The cells `i..` of a row, each preceded by the escape sequence of its
/// style when that differs from the style in force (`prev`).
pub open spec fn row_text(cells: Seq<GridCell>, i: int, prev: Option<CellStyle>) -> Seq<char>
    decreases cells.len() - i,
{
    if i < 0 || i >= cells.len() {
        Seq::empty()
    } else {
        let c = cells[i];
        let lead = if prev != Some(c.style) {
            sgr(c.style)
        } else {
            Seq::empty()
        };
        lead + c.symbol@ + row_text(cells, i + 1, Some(c.style))
    }
}

/// Whether a row shows anything but blanks.
pub open spec fn row_has_content(row: Seq<GridCell>) -> bool {
    exists|k: int| 0 <= k < row.len() && !is_blank(#[trigger] row[k].symbol@)
}

/// The last of the first `n` rows that shows anything but blanks.
pub open spec fn last_content_row(rows: Seq<Vec<GridCell>>, n: int) -> Option<int>
    decreases n,
{
    if n <= 0 {
        None
    } else if row_has_content(rows[n - 1]@) {
        Some(n - 1)
    } else {
        last_content_row(rows, n - 1)
    }
}

proof fn lemma_last_content_row_bound(rows: Seq<Vec<GridCell>>, n: int)
    ensures
        last_content_row(rows, n) matches Some(l) ==> 0 <= l < n,
    decreases n,
{
    if n > 0 {
        lemma_last_content_row_bound(rows, n - 1);
    }
}

/// Rows `y..=last` as text: each row, a reset, and a line break between rows.
pub open spec fn rows_text(rows: Seq<Vec<GridCell>>, y: int, last: int) -> Seq<char>
    decreases last - y + 1,
{
    if y > last || y < 0 {
        Seq::empty()
    } else {
        let brk = if y < last {
            seq!['\n']
        } else {
            Seq::empty()
        };
        row_text(rows[y]@, 0, None) + reset_code() + brk + rows_text(rows, y + 1, last)
    }
}

/// The text of a frame: its rows up to the last one that shows anything,
/// without trailing blank rows; nothing at all for a blank frame.
pub open spec fn frame_text(rows: Seq<Vec<GridCell>>) -> Seq<char> {
    match last_content_row(rows, rows.len() as int) {
        Some(last) => rows_text(rows, 0, last),
        None => Seq::empty(),
    }
}

/// SGR parameters for a colour.
fn color_params(color: TermColor, normal_base: usize, bright_base: usize, extended: usize) -> (r: Option<String>)
    requires
        normal_base + 7 <= usize::MAX,
        bright_base + 7 <= usize::MAX,
    ensures
        match r {
            Some(s) => color_code(color, normal_base as nat, bright_base as nat, extended as nat) == Some(s@),
            None => color_code(color, normal_base as nat, bright_base as nat, extended as nat) is None,
        },
{
    let mut s = String::new();
    match color {
        TermColor::Reset => return None,
        TermColor::Black => push_decimal(&mut s, normal_base),
        TermColor::Red => push_decimal(&mut s, normal_base + 1),
        TermColor::Green => push_decimal(&mut s, normal_base + 2),
        TermColor::Yellow => push_decimal(&mut s, normal_base + 3),
        TermColor::Blue => push_decimal(&mut s, normal_base + 4),
        TermColor::Magenta => push_decimal(&mut s, normal_base + 5),
        TermColor::Cyan => push_decimal(&mut s, normal_base + 6),
        TermColor::Gray => push_decimal(&mut s, normal_base + 7),
        TermColor::DarkGray => push_decimal(&mut s, bright_base),
        TermColor::LightRed => push_decimal(&mut s, bright_base + 1),
        TermColor::LightGreen => push_decimal(&mut s, bright_base + 2),
        TermColor::LightYellow => push_decimal(&mut s, bright_base + 3),
        TermColor::LightBlue => push_decimal(&mut s, bright_base + 4),
        TermColor::LightMagenta => push_decimal(&mut s, bright_base + 5),
        TermColor::LightCyan => push_decimal(&mut s, bright_base + 6),
        TermColor::White => push_decimal(&mut s, bright_base + 7),
        TermColor::Rgb(r, g, b) => {
            push_decimal(&mut s, extended);
            push_char(&mut s, ';');
            push_char(&mut s, '2');
            push_char(&mut s, ';');
            push_decimal(&mut s, r as usize);
            push_char(&mut s, ';');
            push_decimal(&mut s, g as usize);
            push_char(&mut s, ';');
            push_decimal(&mut s, b as usize);
        },
        TermColor::Indexed(i) => {
            push_decimal(&mut s, extended);
            push_char(&mut s, ';');
            push_char(&mut s, '5');
            push_char(&mut s, ';');
            push_decimal(&mut s, i as usize);
        },
    }
    proof {
        assert(color_code(color, normal_base as nat, bright_base as nat, extended as nat) == Some(s@)) by {
            match color {
                TermColor::Rgb(r, g, b) => {
                    assert(s@ =~= decimal(extended as nat) + seq![';', '2', ';'] + decimal(r as nat) + seq![';']
                        + decimal(g as nat) + seq![';'] + decimal(b as nat));
                },
                TermColor::Indexed(i) => {
                    assert(s@ =~= decimal(extended as nat) + seq![';', '5', ';'] + decimal(i as nat));
                },
                _ => {
                    assert(s@ =~= Seq::<char>::empty() + s@);
                },
            }
        }
    }
    Some(s)
}

/// SGR parameters for a foreground colour.
pub fn ansi_fg(color: TermColor) -> (r: Option<String>)
    ensures
        match r {
            Some(s) => fg_code(color) == Some(s@),
            None => fg_code(color) is None,
        },
{
    color_params(color, 30, 90, 38)
}

/// SGR parameters for a background colour.
pub fn ansi_bg(color: TermColor) -> (r: Option<String>)
    ensures
        match r {
            Some(s) => bg_code(color) == Some(s@),
            None => bg_code(color) is None,
        },
{
    color_params(color, 40, 100, 48)
}

/// Appends `;d` when `on`.
fn push_flag(s: &mut String, on: bool, d: char)
    ensures
        final(s)@ == old(s)@ + flag(on, d),
{
    if on {
        push_char(s, ';');
        push_char(s, d);
    }
    assert(s@ =~= old(s)@ + flag(on, d));
}

/// Appends `;code` for an optional code.
fn push_param(s: &mut String, code: Option<String>)
    ensures
        final(s)@ == old(s)@ + param(match code {
            Some(c) => Some(c@),
            None => None,
        }),
{
    match code {
        Some(c) => {
            push_char(s, ';');
            push_str(s, c.as_str());
        },
        None => {},
    }
    assert(s@ =~= old(s)@ + param(match code {
        Some(c) => Some(c@),
        None => None,
    }));
}

/// The escape sequence that selects `style`.
pub fn style_to_sgr(style: CellStyle) -> (r: String)
    ensures
        r@ == sgr(style),
{
    let mut out = String::new();
    push_char(&mut out, '\x1b');
    push_char(&mut out, '[');
    push_char(&mut out, '0');
    let ghost head = out@;
    assert(head =~= seq!['\x1b', '[', '0']);
    let fg = match style.fg {
        Some(c) => ansi_fg(c),
        None => None,
    };
    let ghost fgv = match style.fg {
        Some(c) => fg_code(c),
        None => None,
    };
    assert(fgv == match fg {
        Some(c) => Some(c@),
        None => None,
    });
    push_param(&mut out, fg);
    let ghost with_fg = out@;
    assert(with_fg == head + param(fgv));
    let bg = match style.bg {
        Some(c) => ansi_bg(c),
        None => None,
    };
    let ghost bgv = match style.bg {
        Some(c) => bg_code(c),
        None => None,
    };
    assert(bgv == match bg {
        Some(c) => Some(c@),
        None => None,
    });
    push_param(&mut out, bg);
    let ghost with_bg = out@;
    assert(with_bg == with_fg + param(bgv));
    let m = style.add_modifier;
    push_flag(&mut out, m.bold, '1');
    push_flag(&mut out, m.dim, '2');
    push_flag(&mut out, m.italic, '3');
    push_flag(&mut out, m.underlined, '4');
    push_flag(&mut out, m.reversed, '7');
    push_flag(&mut out, m.crossed_out, '9');
    push_char(&mut out, 'm');
    proof {
        assert(out@ =~= with_bg + flag(m.bold, '1') + flag(m.dim, '2') + flag(m.italic, '3') + flag(m.underlined, '4')
            + flag(m.reversed, '7') + flag(m.crossed_out, '9') + seq!['m']);
        assert(out@ =~= sgr(style));
    }
    out
}

/// Whether a row shows anything but blanks.
fn row_content(row: &Vec<GridCell>) -> (r: bool)
    ensures
        r == row_has_content(row@),
{
    let mut k: usize = 0;
    while k < row.len()
        invariant
            k <= row@.len(),
            forall|j: int| 0 <= j < k ==> is_blank(#[trigger] row@[j].symbol@),
        decreases row@.len() - k,
    {
        if !blank(row[k].symbol.as_str()) {
            return true;
        }
        k = k + 1;
    }
    false
}

/// The text of a drawn frame with its styling as ANSI escape codes.
pub fn buffer_to_ansi_string(buf: &CellGrid) -> (r: String)
    ensures
        r@ == frame_text(buf.rows@),
{
    let rows = &buf.rows;
    let mut last_nonblank: Option<usize> = None;
    let mut y: usize = 0;
    while y < rows.len()
        invariant
            y <= rows@.len(),
            match last_nonblank {
                Some(l) => last_content_row(rows@, y as int) == Some(l as int),
                None => last_content_row(rows@, y as int) is None,
            },
        decreases rows@.len() - y,
    {
        if row_content(&rows[y]) {
            last_nonblank = Some(y);
        }
        y = y + 1;
    }
    let last_row = match last_nonblank {
        Some(l) => l,
        None => return String::new(),
    };
    proof {
        lemma_last_content_row_bound(rows@, rows@.len() as int);
    }
    let nrows = rows.len();
    let ghost goal = rows_text(rows@, 0, last_row as int);
    let mut out = String::new();
    let mut y: usize = 0;
    proof {
        assert(out@ + goal =~= goal);
    }
    while y <= last_row
        invariant
            last_row < rows@.len(),
            rows@.len() == nrows,
            y <= last_row + 1,
            out@ + rows_text(rows@, y as int, last_row as int) == goal,
        decreases last_row + 1 - y,
    {
        let row = &rows[y];
        let ghost row_goal = row_text(row@, 0, None);
        let ghost out0 = out@;
        let mut last_style: Option<CellStyle> = None;
        let mut x: usize = 0;
        while x < row.len()
            invariant
                x <= row@.len(),
                out@ + row_text(row@, x as int, last_style) == out0 + row_goal,
            decreases row@.len() - x,
        {
            let cell = &row[x];
            let style = cell.style;
            let ghost before = out@;
            let ghost prev = last_style;
            let differs = match last_style {
                Some(ls) => !(ls == style),
                None => true,
            };
            assert(differs == (prev != Some(style)));
            if differs {
                let code = style_to_sgr(style);
                push_str(&mut out, code.as_str());
            }
            push_str(&mut out, cell.symbol.as_str());
            proof {
                let lead = if prev != Some(style) { sgr(style) } else { Seq::empty() };
                assert(out@ =~= before + lead + cell.symbol@);
                assert(row_text(row@, x as int, prev) == lead + row@[x as int].symbol@ + row_text(row@, x + 1, Some(style)));
            }
            last_style = Some(style);
            x = x + 1;
        }
        proof {
            assert(row_text(row@, row@.len() as int, last_style) =~= Seq::<char>::empty());
        }
        let ghost before_tail = out@;
        push_char(&mut out, '\x1b');
        push_char(&mut out, '[');
        push_char(&mut out, '0');
        push_char(&mut out, 'm');
        if y < last_row {
            push_char(&mut out, '\n');
        }
        proof {
            let brk = if y < last_row { seq!['\n'] } else { Seq::<char>::empty() };
            assert(out@ =~= before_tail + reset_code() + brk);
            assert(rows_text(rows@, y as int, last_row as int) == row_goal + reset_code() + brk + rows_text(rows@, y + 1, last_row as int));
        }
        y = y + 1;
    }
    proof {
        assert(rows_text(rows@, y as int, last_row as int) =~= Seq::<char>::empty());
        assert(out@ =~= goal);
    }
    out
}

} // verus!
