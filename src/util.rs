//! Threshold colouring and table layout.

use crate::config::{ColouringLevel, ConditionalColour, LocalColor};
use crate::style::{
    coloured_cell, coloured_row, lemma_colouring_keeps_visible_text, paint, plain, visible,
};
use crate::text::{join, join_with, pad, pad_to, text_width, views};
use vstd::prelude::*;
use vstd::laws_cmp::obeys_partial_cmp_spec_properties;
use vstd::std_specs::cmp::PartialOrdSpec;

verus! {

/// `a < b` as the type's comparison decides it.
pub open spec fn below<T: PartialOrd>(a: T, b: T) -> bool {
    a.partial_cmp_spec(&b) == Some(core::cmp::Ordering::Less)
}

/// Index of the first band, from `i` on, whose minimum `val` does not reach;
/// the number of bands if there is none.
pub open spec fn stop_from<T: PartialOrd>(val: T, levels: Seq<ColouringLevel<T>>, i: int) -> int
    decreases levels.len() - i,
{
    if i < 0 || i >= levels.len() {
        levels.len() as int
    } else if below(val, levels[i].min) {
        i
    } else {
        stop_from(val, levels, i + 1)
    }
}

/// Number of leading bands whose minimum `val` reaches before the first one it does not.
pub open spec fn rank<T: PartialOrd>(val: T, levels: Seq<ColouringLevel<T>>) -> int {
    stop_from(val, levels, 0)
}

/// The colour that `val` selects: that of the last band passed before the
/// first band it falls below, or the default colour if it falls below the first.
pub open spec fn colour_for<T: PartialOrd>(
    val: T,
    default_colour: LocalColor,
    levels: Seq<ColouringLevel<T>>,
) -> LocalColor {
    let k = rank(val, levels);
    if k == 0 {
        default_colour
    } else {
        levels[k - 1].colour
    }
}

/// Selects a colour by comparing `val` with each band's minimum in order,
/// keeping the colour of the last band passed.
pub fn select_colour_number<T: PartialOrd>(val: T, cond_colour: &ConditionalColour<T>) -> (r:
    LocalColor)
    ensures
        cond_colour.levels@.len() == 0 ==> r == cond_colour.default_colour,
        T::obeys_partial_cmp_spec() ==> r == colour_for(
            val,
            cond_colour.default_colour,
            cond_colour.levels@,
        ),
{
    let levels = &cond_colour.levels;
    let mut prev_colour = cond_colour.default_colour;
    let mut i: usize = 0;
    while i < levels.len()
        invariant
            i <= levels.len(),
            T::obeys_partial_cmp_spec() ==> stop_from(val, levels@, 0) == stop_from(
                val,
                levels@,
                i as int,
            ),
            prev_colour == (if i == 0 {
                cond_colour.default_colour
            } else {
                levels@[i - 1].colour
            }),
        ensures
            i <= levels.len(),
            T::obeys_partial_cmp_spec() ==> stop_from(val, levels@, 0) == i,
            prev_colour == (if i == 0 {
                cond_colour.default_colour
            } else {
                levels@[i - 1].colour
            }),
        decreases levels.len() - i,
    {
        if val < levels[i].min {
            break;
        }
        prev_colour = levels[i].colour;
        i = i + 1;
    }
    prev_colour
}

/// `a <= b` for a lawful order: below or equal.
pub open spec fn at_most<T: PartialOrd>(a: T, b: T) -> bool {
    below(a, b) || a == b
}

/// The type's comparison obeys the laws of an order (vstd's laws for
/// `partial_cmp`: antisymmetry of less and greater, transitivity, agreement
/// with equality). Integers obey them.
pub open spec fn lawful<T: PartialOrd>() -> bool {
    T::obeys_partial_cmp_spec() && obeys_partial_cmp_spec_properties::<T>()
}

/// The bands' minimums are in ascending order.
pub open spec fn levels_sorted<T: PartialOrd>(levels: Seq<ColouringLevel<T>>) -> bool {
    forall|i: int, j: int| 0 <= i < j < levels.len() ==> at_most(levels[i].min, levels[j].min)
}

/// Index of the last band whose minimum `val` is not below (the minimum is at
/// most `val`), or -1 if there is none.
pub open spec fn last_reached<T: PartialOrd>(val: T, levels: Seq<ColouringLevel<T>>) -> int
    decreases levels.len(),
{
    if levels.len() == 0 {
        -1
    } else if !below(val, levels.last().min) {
        levels.len() - 1
    } else {
        last_reached(val, levels.drop_last())
    }
}

proof fn lemma_below_trans<T: PartialOrd>(a: T, b: T, c: T)
    requires
        lawful::<T>(),
        below(a, b),
        at_most(b, c),
    ensures
        below(a, c),
{
    reveal(obeys_partial_cmp_spec_properties);
}

proof fn lemma_below_irreflexive<T: PartialOrd>(a: T)
    requires
        lawful::<T>(),
    ensures
        !below(a, a),
{
    reveal(obeys_partial_cmp_spec_properties);
}

proof fn lemma_stop_from_bounds<T: PartialOrd>(val: T, levels: Seq<ColouringLevel<T>>, i: int)
    requires
        0 <= i <= levels.len(),
    ensures
        i <= stop_from(val, levels, i) <= levels.len(),
        forall|j: int| i <= j < stop_from(val, levels, i) ==> !below(val, #[trigger] levels[j].min),
        stop_from(val, levels, i) < levels.len() ==> below(
            val,
            levels[stop_from(val, levels, i)].min,
        ),
    decreases levels.len() - i,
{
    if i < levels.len() && !below(val, levels[i].min) {
        lemma_stop_from_bounds(val, levels, i + 1);
    }
}

/// A value below every band's minimum selects the default colour.
pub proof fn lemma_below_all_is_default<T: PartialOrd>(val: T, cond_colour: ConditionalColour<T>)
    requires
        forall|i: int|
            0 <= i < cond_colour.levels@.len() ==> below(val, #[trigger] cond_colour.levels@[i].min),
    ensures
        colour_for(val, cond_colour.default_colour, cond_colour.levels@)
            == cond_colour.default_colour,
{
    lemma_stop_from_bounds(val, cond_colour.levels@, 0);
}

/// With bands in ascending order, the selected colour is that of the last band
/// whose minimum is at most the value, or the default colour if there is none.
pub proof fn lemma_last_band_reached<T: PartialOrd>(val: T, cond_colour: ConditionalColour<T>)
    requires
        lawful::<T>(),
        levels_sorted(cond_colour.levels@),
    ensures
        colour_for(val, cond_colour.default_colour, cond_colour.levels@) == (if last_reached(
            val,
            cond_colour.levels@,
        ) < 0 {
            cond_colour.default_colour
        } else {
            cond_colour.levels@[last_reached(val, cond_colour.levels@)].colour
        }),
{
    let levels = cond_colour.levels@;
    lemma_stop_from_bounds(val, levels, 0);
    lemma_last_reached(val, levels);
}

proof fn lemma_last_reached<T: PartialOrd>(val: T, levels: Seq<ColouringLevel<T>>)
    requires
        lawful::<T>(),
        levels_sorted(levels),
    ensures
        last_reached(val, levels) == rank(val, levels) - 1,
    decreases levels.len(),
{
    lemma_stop_from_bounds(val, levels, 0);
    if levels.len() > 0 {
        let k = rank(val, levels);
        let n = levels.len() - 1;
        if !below(val, levels.last().min) {
            if k < levels.len() {
                assert(below(val, levels[k].min));
                if k < n {
                    lemma_below_trans(val, levels[k].min, levels[n].min);
                }
            }
        } else {
            let shorter = levels.drop_last();
            assert(levels_sorted(shorter)) by {
                assert forall|i: int, j: int| 0 <= i < j < shorter.len() implies at_most(
                    shorter[i].min,
                    shorter[j].min,
                ) by {
                    assert(shorter[i] == levels[i] && shorter[j] == levels[j]);
                }
            }
            lemma_last_reached(val, shorter);
            lemma_stop_from_bounds(val, shorter, 0);
            let k2 = rank(val, shorter);
            assert forall|j: int| 0 <= j < k implies !below(val, #[trigger] shorter[j].min) by {
                assert(shorter[j] == levels[j]);
            }
            if k < levels.len() {
                assert(k2 <= k) by {
                    if k2 < shorter.len() && k2 > k {
                        assert(shorter[k] == levels[k]);
                    }
                }
                if k2 < k {
                    assert(shorter[k2] == levels[k2]);
                }
            }
            if k2 < shorter.len() {
                assert(shorter[k2] == levels[k2]);
            }
        }
    }
}

/// With bands in ascending order, a larger value never selects an earlier band.
pub proof fn lemma_rank_monotonic<T: PartialOrd>(v1: T, v2: T, cond_colour: ConditionalColour<T>)
    requires
        lawful::<T>(),
        levels_sorted(cond_colour.levels@),
        at_most(v1, v2),
    ensures
        rank(v1, cond_colour.levels@) <= rank(v2, cond_colour.levels@),
{
    let levels = cond_colour.levels@;
    lemma_stop_from_bounds(v1, levels, 0);
    lemma_stop_from_bounds(v2, levels, 0);
    let k2 = rank(v2, levels);
    if k2 < rank(v1, levels) {
        assert(!below(v1, levels[k2].min));
        assert(below(v2, levels[k2].min));
        if v1 != v2 {
            lemma_below_trans(v1, v2, levels[k2].min);
        }
    }
}

/// A band whose minimum is strictly below the next band's minimum is selected
/// by its own minimum: the lower bound is inclusive.
pub proof fn lemma_band_minimum_selects_band<T: PartialOrd>(
    cond_colour: ConditionalColour<T>,
    i: int,
)
    requires
        lawful::<T>(),
        levels_sorted(cond_colour.levels@),
        0 <= i < cond_colour.levels@.len(),
        i + 1 < cond_colour.levels@.len() ==> below(
            cond_colour.levels@[i].min,
            cond_colour.levels@[i + 1].min,
        ),
    ensures
        colour_for(cond_colour.levels@[i].min, cond_colour.default_colour, cond_colour.levels@)
            == cond_colour.levels@[i].colour,
{
    let levels = cond_colour.levels@;
    let v = levels[i].min;
    lemma_stop_from_bounds(v, levels, 0);
    let k = rank(v, levels);
    assert forall|j: int| 0 <= j <= i implies !below(v, #[trigger] levels[j].min) by {
        lemma_below_irreflexive(v);
        if j < i && below(v, levels[j].min) {
            lemma_below_trans(v, levels[j].min, levels[i].min);
        }
    }
    if k < levels.len() {
        assert(below(v, levels[k].min));
        assert(k == i + 1);
    }
}

/// Unsigned 64-bit integers, the type of the integer bands, compare lawfully.
pub proof fn lemma_u64_lawful()
    ensures
        lawful::<u64>(),
{
    broadcast use vstd::laws_cmp::group_laws_cmp;

    assert(vstd::laws_cmp::obeys_cmp::<u64>());
}

/// Widest value of column `col` over the header length `h` and the rows.
pub open spec fn column_max(h: int, rows: Seq<Seq<usize>>, col: int) -> int
    decreases rows.len(),
{
    if rows.len() == 0 {
        h
    } else {
        let rest = column_max(h, rows.drop_last(), col);
        let last = rows.last()[col] as int;
        if last > rest {
            last
        } else {
            rest
        }
    }
}

/// The character count of each header cell.
pub open spec fn header_lengths(header: Seq<&str>) -> Seq<int> {
    header.map_values(|s: &str| s@.len() as int)
}

/// Width of each column: the largest of the header cell's length and the
/// row lengths in that column.
pub open spec fn widths_of(header: Seq<int>, rows: Seq<Seq<usize>>) -> Seq<int> {
    Seq::new(header.len(), |i: int| column_max(header[i], rows, i))
}

/// Every row has one length per header cell.
pub open spec fn rows_match(n: int, rows: Seq<Seq<usize>>) -> bool {
    forall|r: int| 0 <= r < rows.len() ==> #[trigger] rows[r].len() == n
}

/// Computes each column's width over the header and the rows' cell lengths
/// (in characters).
pub fn column_widths(header: &[&str], entries: &Vec<Vec<usize>>) -> (r: Vec<usize>)
    requires
        rows_match(header@.len() as int, entries@.map_values(|row: Vec<usize>| row@)),
    ensures
        r@.len() == header@.len(),
        forall|i: int|
            0 <= i < r@.len() ==> r@[i] as int == widths_of(
                header_lengths(header@),
                entries@.map_values(|row: Vec<usize>| row@),
            )[i],
{
    let ghost rows = entries@.map_values(|row: Vec<usize>| row@);
    let ghost h = header_lengths(header@);
    let mut widths: Vec<usize> = Vec::new();
    let mut c: usize = 0;
    while c < header.len()
        invariant
            c <= header@.len(),
            widths@.len() == c,
            h == header_lengths(header@),
            forall|i: int| 0 <= i < c ==> widths@[i] as int == h[i],
        decreases header@.len() - c,
    {
        widths.push(text_width(header[c]));
        c = c + 1;
    }
    let mut r: usize = 0;
    while r < entries.len()
        invariant
            r <= entries@.len(),
            widths@.len() == header@.len(),
            rows == entries@.map_values(|row: Vec<usize>| row@),
            rows_match(header@.len() as int, rows),
            forall|i: int|
                0 <= i < widths@.len() ==> widths@[i] as int == column_max(
                    h[i],
                    rows.take(r as int),
                    i,
                ),
        decreases entries@.len() - r,
    {
        let row = &entries[r];
        assert(rows[r as int] == row@);
        assert(rows.take(r as int + 1).drop_last() =~= rows.take(r as int));
        let mut c: usize = 0;
        while c < widths.len()
            invariant
                c <= widths@.len(),
                widths@.len() == header@.len(),
                row@.len() == header@.len(),
                row@ == rows[r as int],
                r < rows.len(),
                rows.take(r as int + 1).drop_last() == rows.take(r as int),
                forall|i: int|
                    0 <= i < c ==> widths@[i] as int == column_max(
                        h[i],
                        rows.take(r as int + 1),
                        i,
                    ),
                forall|i: int|
                    c <= i < widths@.len() ==> widths@[i] as int == column_max(
                        h[i],
                        rows.take(r as int),
                        i,
                    ),
            decreases widths@.len() - c,
        {
            if row[c] > widths[c] {
                widths.set(c, row[c]);
            }
            c = c + 1;
        }
        r = r + 1;
    }
    assert(rows.take(entries@.len() as int) =~= rows);
    widths
}

/// Each cell padded with spaces to its column's width.
pub open spec fn padded_cells(cells: Seq<Seq<char>>, widths: Seq<usize>) -> Seq<Seq<char>> {
    Seq::new(cells.len(), |i: int| pad_to(cells[i], widths[i] as int, ' '))
}

/// A table row: the prefix, then the padded cells separated by two spaces.
pub open spec fn row_text(prefix: Seq<char>, cells: Seq<Seq<char>>, widths: Seq<usize>) -> Seq<
    char,
> {
    prefix + join(padded_cells(cells, widths), seq![' ', ' '])
}

/// The indent string, or nothing.
pub open spec fn prefix_of(prefix: Option<&str>) -> Seq<char> {
    match prefix {
        Some(p) => p@,
        None => Seq::empty(),
    }
}

/// Pads each cell with spaces to its column's width.
pub fn format_width(items: &Vec<String>, column_sizes: &Vec<usize>) -> (r: Vec<String>)
    requires
        items@.len() == column_sizes@.len(),
    ensures
        views(r@) == padded_cells(views(items@), column_sizes@),
{
    let mut r: Vec<String> = Vec::new();
    let mut i: usize = 0;
    while i < items.len()
        invariant
            i <= items@.len(),
            items@.len() == column_sizes@.len(),
            r@.len() == i,
            forall|j: int|
                0 <= j < i ==> #[trigger] r@[j]@ == pad_to(items@[j]@, column_sizes@[j] as int, ' '),
        decreases items@.len() - i,
    {
        r.push(pad(items[i].as_str(), column_sizes[i]));
        i = i + 1;
    }
    assert(views(r@) =~= padded_cells(views(items@), column_sizes@));
    r
}

/// Lays out one table row: the optional indent, then each cell padded to its
/// column's width, cells separated by two spaces.
pub fn render_row(items: &Vec<String>, column_sizes: &Vec<usize>, prefix: Option<&str>) -> (r:
    String)
    requires
        items@.len() == column_sizes@.len(),
    ensures
        r@ == row_text(prefix_of(prefix), views(items@), column_sizes@),
{
    let cells = format_width(items, column_sizes);
    let sep = "  ";
    proof {
        reveal_strlit("  ");
        assert(sep@ =~= seq![' ', ' ']);
    }
    let body = join_with(&cells, sep);
    let mut r = match prefix {
        Some(p) => p.to_owned(),
        None => String::new(),
    };
    r.append(body.as_str());
    r
}

/// Lays out one row of cells already padded to their columns: the optional
/// indent, then each cell, styled in its colour if it has one, cells separated
/// by two spaces.
pub fn render_row_colour(
    items: &Vec<String>,
    colours: &Vec<Option<LocalColor>>,
    prefix: Option<&str>,
) -> (r: String)
    requires
        items@.len() == colours@.len(),
    ensures
        coloured_row(r@, prefix_of(prefix), views(items@), colours@),
{
    let mut pieces: Vec<String> = Vec::new();
    let mut i: usize = 0;
    while i < items.len()
        invariant
            i <= items@.len(),
            items@.len() == colours@.len(),
            pieces@.len() == i,
            forall|j: int|
                0 <= j < i ==> coloured_cell(#[trigger] pieces@[j]@, items@[j]@, colours@[j]),
        decreases items@.len() - i,
    {
        let piece = match colours[i] {
            Some(c) => paint(items[i].as_str(), c),
            None => items[i].as_str().to_owned(),
        };
        pieces.push(piece);
        i = i + 1;
    }
    let sep = "  ";
    proof {
        reveal_strlit("  ");
        assert(sep@ =~= seq![' ', ' ']);
    }
    let body = join_with(&pieces, sep);
    let mut r = match prefix {
        Some(p) => p.to_owned(),
        None => String::new(),
    };
    r.append(body.as_str());
    proof {
        let cells = views(items@);
        let ps = views(pieces@);
        assert forall|j: int| 0 <= j < cells.len() implies coloured_cell(
            #[trigger] ps[j],
            cells[j],
            colours@[j],
        ) by {
            assert(coloured_cell(pieces@[j]@, items@[j]@, colours@[j]));
        }
        assert(coloured_row(r@, prefix_of(prefix), cells, colours@));
    }
    r
}

/// A coloured row of padded plain cells shows exactly the uncoloured row that
/// `render_row` lays out, so colouring keeps columns aligned.
pub proof fn lemma_coloured_row_aligns(
    r: Seq<char>,
    prefix: Seq<char>,
    cells: Seq<Seq<char>>,
    widths: Seq<usize>,
    colours: Seq<Option<LocalColor>>,
)
    requires
        cells.len() == widths.len(),
        colours.len() == cells.len(),
        plain(prefix),
        forall|i: int| 0 <= i < cells.len() ==> plain(#[trigger] cells[i]),
        coloured_row(r, prefix, padded_cells(cells, widths), colours),
    ensures
        visible(r) == row_text(prefix, cells, widths),
        visible(r).len() == row_text(prefix, cells, widths).len(),
{
    let padded = padded_cells(cells, widths);
    assert forall|i: int| 0 <= i < padded.len() implies plain(#[trigger] padded[i]) by {
        assert(plain(cells[i]));
        let p = padded[i];
        assert forall|k: int| 0 <= k < p.len() implies p[k] != crate::style::esc() by {
            if k >= cells[i].len() {
                assert(p[k] == ' ');
            } else {
                assert(p[k] == cells[i][k]);
            }
        }
    }
    lemma_colouring_keeps_visible_text(r, prefix, padded, colours);
}

proof fn lemma_column_max_floor(h: int, rows: Seq<Seq<usize>>, col: int)
    ensures
        column_max(h, rows, col) >= h,
    decreases rows.len(),
{
    if rows.len() > 0 {
        lemma_column_max_floor(h, rows.drop_last(), col);
    }
}

/// Every column is at least as wide as its header cell, with or without rows.
pub proof fn lemma_widths_cover_header(header: Seq<int>, rows: Seq<Seq<usize>>)
    ensures
        forall|i: int|
            0 <= i < header.len() ==> #[trigger] widths_of(header, rows)[i] >= header[i],
{
    assert forall|i: int| 0 <= i < header.len() implies #[trigger] widths_of(header, rows)[i]
        >= header[i] by {
        lemma_column_max_floor(header[i], rows, i);
    }
}

/// Adding a row never makes a column narrower, and each column becomes at
/// least as wide as the new row's cell.
pub proof fn lemma_widths_stable(header: Seq<int>, rows: Seq<Seq<usize>>, row: Seq<usize>)
    requires
        row.len() == header.len(),
    ensures
        forall|i: int|
            0 <= i < header.len() ==> #[trigger] widths_of(header, rows.push(row))[i]
                >= widths_of(header, rows)[i],
        forall|i: int|
            0 <= i < header.len() ==> #[trigger] widths_of(header, rows.push(row))[i]
                >= row[i],
{
    assert(rows.push(row).drop_last() =~= rows);
}

/// Computing the widths twice on the same header and rows gives the same
/// widths: two results that meet `column_widths`'s contract for one input are equal.
pub proof fn lemma_column_widths_deterministic(
    header: Seq<int>,
    rows: Seq<Seq<usize>>,
    r1: Seq<usize>,
    r2: Seq<usize>,
)
    requires
        r1.len() == header.len(),
        r2.len() == header.len(),
        forall|i: int| 0 <= i < r1.len() ==> r1[i] as int == widths_of(header, rows)[i],
        forall|i: int| 0 <= i < r2.len() ==> r2[i] as int == widths_of(header, rows)[i],
    ensures
        r1 == r2,
{
    assert(r1 =~= r2);
}

/// `s` without its trailing spaces.
pub open spec fn trim_end(s: Seq<char>) -> Seq<char>
    decreases s.len(),
{
    if s.len() > 0 && s.last() == ' ' {
        trim_end(s.drop_last())
    } else {
        s
    }
}

/// Offset of column `i` within a row, after the prefix.
pub open spec fn col_start(widths: Seq<usize>, i: int) -> int
    decreases i,
{
    if i <= 0 {
        0
    } else {
        col_start(widths, i - 1) + widths[i - 1] + 2
    }
}

proof fn lemma_trim_pad(c: Seq<char>, w: int)
    requires
        c.len() == 0 || c.last() != ' ',
    ensures
        trim_end(pad_to(c, w, ' ')) == c,
    decreases w - c.len(),
{
    let p = pad_to(c, w, ' ');
    if w > c.len() {
        assert(p.last() == ' ');
        assert(p.drop_last() =~= pad_to(c, w - 1, ' '));
        lemma_trim_pad(c, w - 1);
    } else {
        assert(p =~= c);
    }
}

proof fn lemma_join_columns(pieces: Seq<Seq<char>>, widths: Seq<usize>)
    requires
        pieces.len() == widths.len(),
        pieces.len() >= 1,
        forall|i: int| 0 <= i < pieces.len() ==> (#[trigger] pieces[i]).len() == widths[i],
    ensures
        join(pieces, seq![' ', ' ']).len() == col_start(widths, pieces.len() - 1) + widths.last(),
        forall|i: int|
            0 <= i < pieces.len() ==> join(pieces, seq![' ', ' ']).subrange(
                col_start(widths, i),
                col_start(widths, i) + widths[i],
            ) == #[trigger] pieces[i],
        forall|i: int|
            0 <= i < pieces.len() - 1 ==> join(pieces, seq![' ', ' ']).subrange(
                col_start(widths, i) + widths[i],
                #[trigger] col_start(widths, i) + widths[i] + 2,
            ) == seq![' ', ' '],
    decreases pieces.len(),
{
    let sep = seq![' ', ' '];
    let n = pieces.len() as int;
    if n == 1 {
        assert(join(pieces, sep) == pieces[0]);
        assert(pieces[0].subrange(0, widths[0] as int) =~= pieces[0]);
    } else {
        let front = pieces.drop_last();
        let fw = widths.drop_last();
        assert forall|i: int| 0 <= i < front.len() implies (#[trigger] front[i]).len() == fw[i] by {
            assert(front[i] == pieces[i]);
        }
        lemma_join_columns(front, fw);
        assert forall|i: int| 0 <= i < n implies col_start(fw, i) == col_start(widths, i) by {
            lemma_col_start_prefix(widths, fw, i);
        }
        let jf = join(front, sep);
        let j = join(pieces, sep);
        assert(j == jf + sep + pieces.last());
        assert(jf.len() == col_start(widths, n - 2) + widths[n - 2]);
        assert(col_start(widths, n - 1) == jf.len() + 2);
        assert forall|i: int| 0 <= i < n implies j.subrange(
            col_start(widths, i),
            col_start(widths, i) + widths[i],
        ) == #[trigger] pieces[i] by {
            if i < n - 1 {
                assert(front[i] == pieces[i]);
                assert(jf.subrange(col_start(fw, i), col_start(fw, i) + fw[i]) == front[i]);
                lemma_col_start_mono(widths, 0, i);
                if i < n - 2 {
                    lemma_col_start_mono(widths, i + 1, n - 2);
                }
                assert(j.subrange(col_start(widths, i), col_start(widths, i) + widths[i])
                    =~= jf.subrange(col_start(widths, i), col_start(widths, i) + widths[i]));
            } else {
                assert(j.subrange(col_start(widths, i), col_start(widths, i) + widths[i])
                    =~= pieces.last());
            }
        }
        assert forall|i: int| 0 <= i < n - 1 implies j.subrange(
            col_start(widths, i) + widths[i],
            #[trigger] col_start(widths, i) + widths[i] + 2,
        ) == sep by {
            if i < n - 2 {
                assert(jf.subrange(
                    col_start(fw, i) + fw[i],
                    col_start(fw, i) + fw[i] + 2,
                ) == sep);
                lemma_col_start_mono(widths, 0, i);
                lemma_col_start_mono(widths, i + 1, n - 2);
                assert(j.subrange(col_start(widths, i) + widths[i], col_start(widths, i) + widths[i]
                    + 2) =~= jf.subrange(
                    col_start(widths, i) + widths[i],
                    col_start(widths, i) + widths[i] + 2,
                ));
            } else {
                assert(j.subrange(col_start(widths, i) + widths[i], col_start(widths, i) + widths[i]
                    + 2) =~= sep);
            }
        }
    }
}

proof fn lemma_col_start_prefix(widths: Seq<usize>, fw: Seq<usize>, i: int)
    requires
        fw == widths.drop_last(),
        0 <= i < widths.len(),
    ensures
        col_start(fw, i) == col_start(widths, i),
    decreases i,
{
    if i > 0 {
        lemma_col_start_prefix(widths, fw, i - 1);
    }
}

proof fn lemma_col_start_mono(widths: Seq<usize>, i: int, k: int)
    requires
        0 <= i <= k,
    ensures
        col_start(widths, i) + 2 * (k - i) <= col_start(widths, k),
    decreases k - i,
{
    if i < k {
        lemma_col_start_mono(widths, i, k - 1);
    }
}

/// Reading a row back: for cells that fit their columns and do not end in a
/// space, the text at each column's offset, stripped of its trailing padding,
/// is the cell, and two spaces separate consecutive columns.
pub proof fn lemma_row_round_trip(prefix: Seq<char>, cells: Seq<Seq<char>>, widths: Seq<usize>)
    requires
        cells.len() == widths.len(),
        forall|i: int| 0 <= i < cells.len() ==> (#[trigger] cells[i]).len() <= widths[i],
        forall|i: int|
            0 <= i < cells.len() ==> (#[trigger] cells[i]).len() == 0 || cells[i].last() != ' ',
    ensures
        forall|i: int|
            0 <= i < cells.len() ==> trim_end(
                row_text(prefix, cells, widths).subrange(
                    prefix.len() + col_start(widths, i),
                    prefix.len() + col_start(widths, i) + widths[i],
                ),
            ) == #[trigger] cells[i],
        forall|i: int|
            0 <= i < cells.len() - 1 ==> row_text(prefix, cells, widths).subrange(
                prefix.len() + col_start(widths, i) + widths[i],
                #[trigger] (prefix.len() + col_start(widths, i) + widths[i] + 2),
            ) == seq![' ', ' '],
{
    if cells.len() > 0 {
        let padded = padded_cells(cells, widths);
        assert forall|i: int| 0 <= i < padded.len() implies (#[trigger] padded[i]).len()
            == widths[i] by {
            assert(cells[i].len() <= widths[i]);
        }
        lemma_join_columns(padded, widths);
        let body = join(padded, seq![' ', ' ']);
        let line = row_text(prefix, cells, widths);
        assert(line == prefix + body);
        assert forall|i: int| 0 <= i < cells.len() implies trim_end(
            line.subrange(
                prefix.len() + col_start(widths, i),
                prefix.len() + col_start(widths, i) + widths[i],
            ),
        ) == #[trigger] cells[i] by {
            assert(body.subrange(col_start(widths, i), col_start(widths, i) + widths[i])
                == padded[i]);
            lemma_col_start_mono(widths, 0, i);
            if i < cells.len() - 1 {
                lemma_col_start_mono(widths, i + 1, cells.len() - 1);
            }
            assert(line.subrange(
                prefix.len() + col_start(widths, i),
                prefix.len() + col_start(widths, i) + widths[i],
            ) =~= padded[i]);
            lemma_trim_pad(cells[i], widths[i] as int);
        }
        assert forall|i: int| 0 <= i < cells.len() - 1 implies line.subrange(
            prefix.len() + col_start(widths, i) + widths[i],
            #[trigger] (prefix.len() + col_start(widths, i) + widths[i] + 2),
        ) == seq![' ', ' '] by {
            assert(body.subrange(
                col_start(widths, i) + widths[i],
                col_start(widths, i) + widths[i] + 2,
            ) == seq![' ', ' ']);
            lemma_col_start_mono(widths, 0, i);
            lemma_col_start_mono(widths, i + 1, cells.len() - 1);
            assert(line.subrange(
                prefix.len() + col_start(widths, i) + widths[i],
                prefix.len() + col_start(widths, i) + widths[i] + 2,
            ) =~= body.subrange(
                col_start(widths, i) + widths[i],
                col_start(widths, i) + widths[i] + 2,
            ));
        }
    }
}

/// The character count of each cell.
pub open spec fn cell_lengths(cells: Seq<Seq<char>>) -> Seq<usize> {
    cells.map_values(|c: Seq<char>| c.len() as usize)
}

/// Counts the characters of each cell.
pub fn text_lengths(cells: &Vec<String>) -> (r: Vec<usize>)
    ensures
        r@ == cell_lengths(views(cells@)),
{
    let mut r: Vec<usize> = Vec::new();
    let mut i: usize = 0;
    while i < cells.len()
        invariant
            i <= cells@.len(),
            r@ == cell_lengths(views(cells@)).take(i as int),
        decreases cells@.len() - i,
    {
        r.push(text_width(cells[i].as_str()));
        i = i + 1;
        assert(r@ =~= cell_lengths(views(cells@)).take(i as int));
    }
    assert(r@ =~= cell_lengths(views(cells@)));
    r
}

/// Owned copies of the given strings.
pub fn owned_all(cells: &Vec<&str>) -> (r: Vec<String>)
    ensures
        views(r@) == cells@.map_values(|c: &str| c@),
{
    let mut r: Vec<String> = Vec::new();
    let mut i: usize = 0;
    while i < cells.len()
        invariant
            i <= cells@.len(),
            r@.len() == i,
            forall|j: int| 0 <= j < i ==> (#[trigger] r@[j])@ == cells@[j]@,
        decreases cells@.len() - i,
    {
        let c: &str = cells[i];
        r.push(c.to_owned());
        i = i + 1;
    }
    assert(views(r@) =~= cells@.map_values(|c: &str| c@));
    r
}

} // verus!
