//! Terminal styling of text through colored, and what styled text looks like
//! once the terminal has consumed the escape sequences.

use crate::config::LocalColor;
use crate::text::{decimal, join};
use vstd::prelude::*;

verus! {

/// The escape character that starts a terminal control sequence.
pub open spec fn esc() -> char {
    '\x1b'
}

/// The text holds no escape character.
pub open spec fn plain(s: Seq<char>) -> bool {
    forall|i: int| 0 <= i < s.len() ==> s[i] != esc()
}

/// A character allowed among the parameters of a colour sequence.
pub open spec fn sgr_param(c: char) -> bool {
    (48 <= c as u32 && c as u32 <= 57) || c == ';'
}

/// A complete colour sequence: escape, `[`, digits and semicolons, `m`.
pub open spec fn is_sgr(s: Seq<char>) -> bool {
    &&& s.len() >= 3
    &&& s[0] == esc()
    &&& s[1] == '['
    &&& s.last() == 'm'
    &&& forall|i: int| 2 <= i < s.len() - 1 ==> sgr_param(#[trigger] s[i])
}

/// The sequence that resets all styling.
pub open spec fn reset() -> Seq<char> {
    seq![esc(), '[', '0', 'm']
}

/// `r` shows `s`: either `s` itself, or `s` between a colour sequence and a reset.
pub open spec fn styled(r: Seq<char>, s: Seq<char>) -> bool {
    r == s || exists|open: Seq<char>| is_sgr(open) && r == open + s + reset()
}

/// Position of the first character at or after `i` that is no colour parameter.
pub open spec fn param_end(s: Seq<char>, i: int) -> int
    decreases s.len() - i,
{
    if 0 <= i < s.len() && sgr_param(s[i]) {
        param_end(s, i + 1)
    } else {
        i
    }
}

/// Length of the colour sequence that `s` starts with, or 0 if it starts with none.
pub open spec fn sgr_len(s: Seq<char>) -> int {
    if s.len() >= 2 && s[0] == esc() && s[1] == '[' {
        let j = param_end(s, 2);
        if 2 <= j < s.len() && s[j] == 'm' {
            j + 1
        } else {
            0
        }
    } else {
        0
    }
}

/// The text a terminal shows for `s`: `s` without its colour sequences.
pub open spec fn visible(s: Seq<char>) -> Seq<char>
    decreases s.len(),
{
    if s.len() == 0 {
        Seq::empty()
    } else if sgr_len(s) > 0 {
        visible(s.skip(sgr_len(s)))
    } else {
        seq![s[0]] + visible(s.skip(1))
    }
}

/// colored's foreground code for a named colour: 30 to 37 for the eight
/// colours, 90 to 97 for their bright forms.
pub open spec fn named_code(c: LocalColor) -> Seq<char> {
    match c {
        LocalColor::Black => seq!['3', '0'],
        LocalColor::Red => seq!['3', '1'],
        LocalColor::Green => seq!['3', '2'],
        LocalColor::Yellow => seq!['3', '3'],
        LocalColor::Blue => seq!['3', '4'],
        LocalColor::Magenta => seq!['3', '5'],
        LocalColor::Cyan => seq!['3', '6'],
        LocalColor::White => seq!['3', '7'],
        LocalColor::BrightBlack => seq!['9', '0'],
        LocalColor::BrightRed => seq!['9', '1'],
        LocalColor::BrightGreen => seq!['9', '2'],
        LocalColor::BrightYellow => seq!['9', '3'],
        LocalColor::BrightBlue => seq!['9', '4'],
        LocalColor::BrightMagenta => seq!['9', '5'],
        LocalColor::BrightCyan => seq!['9', '6'],
        LocalColor::BrightWhite => seq!['9', '7'],
        LocalColor::TrueColor { .. } => Seq::empty(),
    }
}

/// colored's foreground code for an RGB colour on a true-colour terminal.
pub open spec fn rgb_code(r: u8, g: u8, b: u8) -> Seq<char> {
    seq!['3', '8', ';', '2', ';'] + decimal(r as nat) + seq![';'] + decimal(g as nat) + seq![';']
        + decimal(b as nat)
}

/// `code` is a foreground code colored writes for colour `c`: the named
/// colour's code; for an RGB colour its `38;2;r;g;b` code, or the code of
/// the named colour colored picks as nearest when the terminal lacks true colour.
pub open spec fn colour_code(c: LocalColor, code: Seq<char>) -> bool {
    match c {
        LocalColor::TrueColor { r, g, b } => code == rgb_code(r, g, b) || exists|n: LocalColor|
            !(n is TrueColor) && code == #[trigger] named_code(n),
        _ => code == named_code(c),
    }
}

/// `r` shows `s` in colour `c`: either `s` itself (colouring off), or `s`
/// between the colour's sequence and a reset.
pub open spec fn painted(r: Seq<char>, s: Seq<char>, c: LocalColor) -> bool {
    r == s || exists|code: Seq<char>|
        colour_code(c, code) && r == seq![esc(), '['] + code + seq!['m'] + s + reset()
}

proof fn lemma_decimal_params(n: nat)
    ensures
        forall|i: int| 0 <= i < decimal(n).len() ==> sgr_param(#[trigger] decimal(n)[i]),
        decimal(n).len() >= 1,
    decreases n,
{
    if n >= 10 {
        lemma_decimal_params(n / 10);
    }
}

/// Every character of a colour's code is a colour parameter, and the code is
/// not empty.
proof fn lemma_colour_code_params(c: LocalColor, code: Seq<char>)
    requires
        colour_code(c, code),
    ensures
        code.len() >= 1,
        forall|i: int| 0 <= i < code.len() ==> sgr_param(#[trigger] code[i]),
{
    match c {
        LocalColor::TrueColor { r: x, g: y, b: z } => {
            if code == rgb_code(x, y, z) {
                let dx = decimal(x as nat);
                let dy = decimal(y as nat);
                let dz = decimal(z as nat);
                lemma_decimal_params(x as nat);
                lemma_decimal_params(y as nat);
                lemma_decimal_params(z as nat);
                assert forall|i: int| 0 <= i < code.len() implies sgr_param(#[trigger] code[i]) by {
                    if i < 5 {
                    } else if i < 5 + dx.len() {
                        assert(code[i] == dx[i - 5]);
                    } else if i == 5 + dx.len() {
                    } else if i < 6 + dx.len() + dy.len() {
                        assert(code[i] == dy[i - 6 - dx.len()]);
                    } else if i == 6 + dx.len() + dy.len() {
                    } else {
                        assert(code[i] == dz[i - 7 - dx.len() - dy.len()]);
                    }
                }
            } else {
                let n = choose|n: LocalColor| !(n is TrueColor) && code == named_code(n);
                assert(code.len() == 2);
            }
        },
        _ => {
            assert(code.len() == 2);
        },
    }
}

/// Text painted in a colour is a styled form of it.
pub proof fn lemma_painted_styled(r: Seq<char>, s: Seq<char>, c: LocalColor)
    requires
        painted(r, s, c),
    ensures
        styled(r, s),
{
    if r != s {
        let code = choose|code: Seq<char>|
            colour_code(c, code) && r == seq![esc(), '['] + code + seq!['m'] + s + reset();
        let open = seq![esc(), '['] + code + seq!['m'];
        lemma_colour_code_params(c, code);
        assert forall|i: int| 2 <= i < open.len() - 1 implies sgr_param(#[trigger] open[i]) by {
            assert(open[i] == code[i - 2]);
        }
        assert(is_sgr(open));
        assert(r == open + s + reset());
    }
}

/// What colouring a cell produces: the cell itself without a colour; with
/// one, the cell painted in that colour whenever the cell is plain text.
pub open spec fn coloured_cell(piece: Seq<char>, cell: Seq<char>, colour: Option<LocalColor>) -> bool {
    match colour {
        None => piece == cell,
        Some(c) => plain(cell) ==> painted(piece, cell, c),
    }
}

/// The name under which colored knows a named colour; none for an RGB colour.
pub open spec fn colour_name_of(c: LocalColor) -> Option<Seq<char>> {
    match c {
        LocalColor::Black => Some("black"@),
        LocalColor::Red => Some("red"@),
        LocalColor::Green => Some("green"@),
        LocalColor::Yellow => Some("yellow"@),
        LocalColor::Blue => Some("blue"@),
        LocalColor::Magenta => Some("magenta"@),
        LocalColor::Cyan => Some("cyan"@),
        LocalColor::White => Some("white"@),
        LocalColor::BrightBlack => Some("bright black"@),
        LocalColor::BrightRed => Some("bright red"@),
        LocalColor::BrightGreen => Some("bright green"@),
        LocalColor::BrightYellow => Some("bright yellow"@),
        LocalColor::BrightBlue => Some("bright blue"@),
        LocalColor::BrightMagenta => Some("bright magenta"@),
        LocalColor::BrightCyan => Some("bright cyan"@),
        LocalColor::BrightWhite => Some("bright white"@),
        LocalColor::TrueColor { .. } => None,
    }
}

/// The name under which colored knows a named colour; none for an RGB colour.
pub fn colour_name(c: LocalColor) -> (r: Option<&'static str>)
    ensures
        match r {
            Some(name) => colour_name_of(c) == Some(name@),
            None => colour_name_of(c) is None,
        },
        r is None <==> c is TrueColor,
{
    match c {
        LocalColor::Black => Some("black"),
        LocalColor::Red => Some("red"),
        LocalColor::Green => Some("green"),
        LocalColor::Yellow => Some("yellow"),
        LocalColor::Blue => Some("blue"),
        LocalColor::Magenta => Some("magenta"),
        LocalColor::Cyan => Some("cyan"),
        LocalColor::White => Some("white"),
        LocalColor::BrightBlack => Some("bright black"),
        LocalColor::BrightRed => Some("bright red"),
        LocalColor::BrightGreen => Some("bright green"),
        LocalColor::BrightYellow => Some("bright yellow"),
        LocalColor::BrightBlue => Some("bright blue"),
        LocalColor::BrightMagenta => Some("bright magenta"),
        LocalColor::BrightCyan => Some("bright cyan"),
        LocalColor::BrightWhite => Some("bright white"),
        LocalColor::TrueColor { .. } => None,
    }
}

/// Relies on colored's `Colorize::color` given a colour name (parsed by
/// `Color::from(&str)`, each of the sixteen names to its colour) and on
/// `ColoredString`'s `Display`: the text itself when colouring is off, else
/// `ESC [`, the colour's code from `Color::to_fg_str`, `m`, the text and
/// `ESC [0m`, the text being unchanged when it holds no reset sequence.
#[verifier::external_body]
fn paint_named(text: &str, name: &str) -> (r: String)
    ensures
        forall|c: LocalColor|
            #[trigger] colour_name_of(c) == Some(name@) ==> (plain(text@) ==> painted(
                r@,
                text@,
                c,
            )),
{
    colored::Colorize::color(text, name).to_string()
}

/// Relies on colored's `Colorize::truecolor` and on `ColoredString`'s `Display`,
/// as for named colours; the code is `38;2;r;g;b`, or the nearest named
/// colour's when `COLORTERM` announces no true colour.
#[verifier::external_body]
fn paint_rgb(text: &str, r: u8, g: u8, b: u8) -> (res: String)
    ensures
        plain(text@) ==> painted(res@, text@, LocalColor::TrueColor { r, g, b }),
{
    colored::Colorize::truecolor(text, r, g, b).to_string()
}

/// Styles `text` in colour `c` for the terminal (or leaves it as it is when
/// colouring is off).
pub fn paint(text: &str, c: LocalColor) -> (r: String)
    ensures
        plain(text@) ==> painted(r@, text@, c),
{
    match c {
        LocalColor::TrueColor { r, g, b } => paint_rgb(text, r, g, b),
        _ => match colour_name(c) {
            Some(name) => paint_named(text, name),
            None => text.to_owned(),
        },
    }
}

proof fn lemma_param_end(s: Seq<char>, i: int, j: int)
    requires
        0 <= i <= j <= s.len(),
        forall|k: int| i <= k < j ==> sgr_param(#[trigger] s[k]),
        j == s.len() || !sgr_param(s[j]),
    ensures
        param_end(s, i) == j,
    decreases j - i,
{
    if i < j {
        lemma_param_end(s, i + 1, j);
    }
}

/// A colour sequence at the front is not shown.
proof fn lemma_visible_skips_sgr(a: Seq<char>, y: Seq<char>)
    requires
        is_sgr(a),
    ensures
        visible(a + y) == visible(y),
{
    let s = a + y;
    assert(!sgr_param(s[a.len() - 1]));
    assert forall|k: int| 2 <= k < a.len() - 1 implies sgr_param(#[trigger] s[k]) by {
        assert(s[k] == a[k]);
    }
    lemma_param_end(s, 2, a.len() - 1);
    assert(sgr_len(s) == a.len());
    assert(s.skip(a.len() as int) =~= y);
}

/// Plain text at the front is shown as it is.
proof fn lemma_visible_plain_prefix(x: Seq<char>, y: Seq<char>)
    requires
        plain(x),
    ensures
        visible(x + y) == x + visible(y),
    decreases x.len(),
{
    if x.len() > 0 {
        let s = x + y;
        assert(s[0] == x[0]);
        assert(sgr_len(s) == 0);
        assert(s.skip(1) =~= x.skip(1) + y);
        lemma_visible_plain_prefix(x.skip(1), y);
        assert(x =~= seq![x[0]] + x.skip(1));
    } else {
        assert(x + y =~= y);
    }
}

/// Plain text is shown as it is.
pub proof fn lemma_visible_plain(x: Seq<char>)
    requires
        plain(x),
    ensures
        visible(x) == x,
{
    lemma_visible_plain_prefix(x, Seq::empty());
    assert(x + Seq::<char>::empty() =~= x);
}

/// A styled form of plain text shows that text.
proof fn lemma_visible_styled(p: Seq<char>, c: Seq<char>, y: Seq<char>)
    requires
        plain(c),
        styled(p, c),
    ensures
        visible(p + y) == c + visible(y),
{
    if p == c {
        lemma_visible_plain_prefix(c, y);
    } else {
        let open = choose|open: Seq<char>| is_sgr(open) && p == open + c + reset();
        assert(p + y =~= open + (c + (reset() + y)));
        lemma_visible_skips_sgr(open, c + (reset() + y));
        lemma_visible_plain_prefix(c, reset() + y);
        assert(is_sgr(reset()));
        lemma_visible_skips_sgr(reset(), y);
    }
}

/// A join of two or more pieces is the first piece, the separator and the
/// join of the rest.
pub proof fn lemma_join_front(pieces: Seq<Seq<char>>, sep: Seq<char>)
    requires
        pieces.len() >= 2,
    ensures
        join(pieces, sep) == pieces[0] + sep + join(pieces.drop_first(), sep),
    decreases pieces.len(),
{
    if pieces.len() > 2 {
        lemma_join_front(pieces.drop_last(), sep);
        assert(pieces.drop_last().drop_first() =~= pieces.drop_first().drop_last());
        assert(pieces.drop_last()[0] == pieces[0]);
        let rest = pieces.drop_first();
        assert(rest.last() == pieces.last());
        assert(join(rest, sep) == join(rest.drop_last(), sep) + sep + rest.last());
        assert(join(pieces, sep) == join(pieces.drop_last(), sep) + sep + pieces.last());
        assert(join(pieces, sep) =~= pieces[0] + sep + join(rest, sep));
    } else {
        let rest = pieces.drop_first();
        assert(rest.len() == 1);
        assert(pieces.drop_last().len() == 1);
        assert(join(rest, sep) == rest[0]);
        assert(join(pieces.drop_last(), sep) == pieces.drop_last()[0]);
        assert(join(pieces, sep) == join(pieces.drop_last(), sep) + sep + pieces.last());
    }
}

proof fn lemma_visible_join(
    pieces: Seq<Seq<char>>,
    cells: Seq<Seq<char>>,
    colours: Seq<Option<LocalColor>>,
    sep: Seq<char>,
    y: Seq<char>,
)
    requires
        pieces.len() == cells.len(),
        colours.len() == cells.len(),
        plain(sep),
        forall|i: int| 0 <= i < cells.len() ==> plain(#[trigger] cells[i]),
        forall|i: int|
            0 <= i < cells.len() ==> coloured_cell(#[trigger] pieces[i], cells[i], colours[i]),
    ensures
        visible(join(pieces, sep) + y) == join(cells, sep) + visible(y),
    decreases cells.len(),
{
    if cells.len() == 0 {
        assert(join(pieces, sep) + y =~= y);
        assert(join(cells, sep) + visible(y) =~= visible(y));
    } else {
        assert(plain(cells[0]) && coloured_cell(pieces[0], cells[0], colours[0]));
        if let Some(c) = colours[0] {
            lemma_painted_styled(pieces[0], cells[0], c);
        }
        assert(styled(pieces[0], cells[0]));
        if cells.len() == 1 {
            lemma_visible_styled(pieces[0], cells[0], y);
        } else {
            lemma_join_front(pieces, sep);
            lemma_join_front(cells, sep);
            let rest = join(pieces.drop_first(), sep);
            assert(join(pieces, sep) + y =~= pieces[0] + (sep + (rest + y)));
            lemma_visible_styled(pieces[0], cells[0], sep + (rest + y));
            lemma_visible_plain_prefix(sep, rest + y);
            assert forall|i: int| 0 <= i < cells.len() - 1 implies coloured_cell(
                #[trigger] pieces.drop_first()[i],
                cells.drop_first()[i],
                colours.drop_first()[i],
            ) by {
                assert(coloured_cell(pieces[i + 1], cells[i + 1], colours[i + 1]));
            }
            assert forall|i: int| 0 <= i < cells.len() - 1 implies plain(
                #[trigger] cells.drop_first()[i],
            ) by {
                assert(plain(cells[i + 1]));
            }
            lemma_visible_join(
                pieces.drop_first(),
                cells.drop_first(),
                colours.drop_first(),
                sep,
                y,
            );
            assert(join(cells, sep) + visible(y) =~= cells[0] + (sep + (join(
                cells.drop_first(),
                sep,
            ) + visible(y))));
        }
    }
}

/// `r` is a coloured row: the prefix, then each cell as its colour leaves it,
/// separated by two spaces.
pub open spec fn coloured_row(
    r: Seq<char>,
    prefix: Seq<char>,
    cells: Seq<Seq<char>>,
    colours: Seq<Option<LocalColor>>,
) -> bool {
    exists|pieces: Seq<Seq<char>>|
        {
            &&& pieces.len() == cells.len()
            &&& forall|i: int|
                0 <= i < cells.len() ==> coloured_cell(#[trigger] pieces[i], cells[i], colours[i])
            &&& r == prefix + join(pieces, seq![' ', ' '])
        }
}

/// Colouring changes neither the text a row shows nor its length on screen:
/// a coloured row of plain cells shows exactly the uncoloured row.
pub proof fn lemma_colouring_keeps_visible_text(
    r: Seq<char>,
    prefix: Seq<char>,
    cells: Seq<Seq<char>>,
    colours: Seq<Option<LocalColor>>,
)
    requires
        colours.len() == cells.len(),
        plain(prefix),
        forall|i: int| 0 <= i < cells.len() ==> plain(#[trigger] cells[i]),
        coloured_row(r, prefix, cells, colours),
    ensures
        visible(r) == prefix + join(cells, seq![' ', ' ']),
        visible(r).len() == prefix.len() + join(cells, seq![' ', ' ']).len(),
{
    let sep = seq![' ', ' '];
    let pieces = choose|pieces: Seq<Seq<char>>|
        {
            &&& pieces.len() == cells.len()
            &&& forall|i: int|
                0 <= i < cells.len() ==> coloured_cell(#[trigger] pieces[i], cells[i], colours[i])
            &&& r == prefix + join(pieces, sep)
        };
    assert(plain(sep));
    lemma_visible_join(pieces, cells, colours, sep, Seq::empty());
    lemma_visible_plain_prefix(prefix, join(pieces, sep));
    assert(visible(Seq::<char>::empty()) =~= Seq::<char>::empty());
    assert(join(pieces, sep) + Seq::<char>::empty() =~= join(pieces, sep));
    assert(join(cells, sep) + Seq::<char>::empty() =~= join(cells, sep));
}

} // verus!
