//! The logins section: recent logins of the configured users, read from the
//! output of `last`.

use crate::config::LocalColor;
use crate::style::coloured_row;
use crate::text::{char_vec, decimal, slice_text, split_by, split_on, same_text, u64_text, views};
use crate::util::{
    cell_lengths, column_widths, format_width, header_lengths, owned_all, padded_cells,
    render_row, render_row_colour, row_text, text_lengths, widths_of,
};
use vstd::prelude::*;

verus! {

/// A character with Unicode's White_Space property.
pub open spec fn white_space(c: char) -> bool {
    let u = c as u32;
    (0x09 <= u && u <= 0x0d) || u == 0x20 || u == 0x85 || u == 0xa0 || u == 0x1680 || (0x2000 <= u
        && u <= 0x200a) || u == 0x2028 || u == 0x2029 || u == 0x202f || u == 0x205f || u == 0x3000
}

/// Whether `c` has Unicode's White_Space property.
pub fn is_white_space(c: char) -> (r: bool)
    ensures
        r == white_space(c),
{
    let u = c as u32;
    (0x09 <= u && u <= 0x0d) || u == 0x20 || u == 0x85 || u == 0xa0 || u == 0x1680 || (0x2000 <= u
        && u <= 0x200a) || u == 0x2028 || u == 0x2029 || u == 0x202f || u == 0x205f || u == 0x3000
}

/// End of the run of white space in `s` that starts at `i`.
pub open spec fn space_run_end(s: Seq<char>, i: int) -> int
    decreases s.len() - i,
{
    if 0 <= i < s.len() && white_space(s[i]) {
        space_run_end(s, i + 1)
    } else {
        i
    }
}

/// Length of the field separator at position `i` of a line, or 0 if none
/// starts there: a run of two or more white-space characters (taken whole),
/// else a white space, `-` and a white space.
pub open spec fn separator_len(s: Seq<char>, i: int) -> int {
    if 0 <= i < s.len() && white_space(s[i]) && space_run_end(s, i) - i >= 2 {
        space_run_end(s, i) - i
    } else if 0 <= i && i + 2 < s.len() && white_space(s[i]) && s[i + 1] == '-' && white_space(
        s[i + 2],
    ) {
        3
    } else {
        0
    }
}

/// Position of the first separator at or after `i`, or -1.
pub open spec fn next_separator(s: Seq<char>, i: int) -> int
    decreases s.len() + 1 - i,
{
    if i < 0 || i >= s.len() {
        -1
    } else if separator_len(s, i) > 0 {
        i
    } else {
        next_separator(s, i + 1)
    }
}

/// The fields of `s` from `start` on, between separators found left to right.
pub open spec fn fields_from(s: Seq<char>, start: int) -> Seq<Seq<char>>
    decreases s.len() + 1 - start,
{
    let k = next_separator(s, start);
    if start < 0 || start > s.len() || k < start || k + separator_len(s, k) > s.len()
        || separator_len(s, k) <= 0 {
        seq![s.subrange(start, s.len() as int)]
    } else {
        seq![s.subrange(start, k)] + fields_from(s, k + separator_len(s, k))
    }
}

/// The fields of a line of `last` output.
pub open spec fn line_fields(s: Seq<char>) -> Seq<Seq<char>> {
    fields_from(s, 0)
}

proof fn lemma_space_run_end(s: Seq<char>, i: int)
    requires
        0 <= i <= s.len(),
    ensures
        i <= space_run_end(s, i) <= s.len(),
        forall|k: int| i <= k < space_run_end(s, i) ==> white_space(#[trigger] s[k]),
        space_run_end(s, i) < s.len() ==> !white_space(s[space_run_end(s, i)]),
    decreases s.len() - i,
{
    if i < s.len() && white_space(s[i]) {
        lemma_space_run_end(s, i + 1);
    }
}

proof fn lemma_next_separator(s: Seq<char>, i: int)
    requires
        0 <= i,
    ensures
        next_separator(s, i) == -1 || (i <= next_separator(s, i) < s.len() && separator_len(
            s,
            next_separator(s, i),
        ) > 0),
    decreases s.len() + 1 - i,
{
    if i < s.len() && separator_len(s, i) <= 0 {
        lemma_next_separator(s, i + 1);
    }
}

/// Length of the separator at `i` of `chars`, or 0.
fn separator_at(chars: &Vec<char>, i: usize) -> (r: usize)
    requires
        i < chars@.len(),
    ensures
        r as int == separator_len(chars@, i as int),
        i + r <= chars@.len(),
{
    let n = chars.len();
    if !is_white_space(chars[i]) {
        return 0;
    }
    let mut j = i + 1;
    while j < n && is_white_space(chars[j])
        invariant
            i < j <= n,
            n == chars@.len(),
            space_run_end(chars@, i as int) == space_run_end(chars@, j as int),
        decreases n - j,
    {
        j = j + 1;
    }
    proof {
        lemma_space_run_end(chars@, i as int);
    }
    if j - i >= 2 {
        return j - i;
    }
    if n - i > 2 && chars[i + 1] == '-' && is_white_space(chars[i + 2]) {
        3
    } else {
        0
    }
}

/// Splits a line of `last` output into its fields.
pub fn split_fields(line: &str) -> (r: Vec<String>)
    ensures
        views(r@) == line_fields(line@),
{
    let chars = char_vec(line);
    let n = chars.len();
    let mut out: Vec<String> = Vec::new();
    let mut start: usize = 0;
    let mut i: usize = 0;
    while i < n
        invariant
            chars@ == line@,
            n == line@.len(),
            start <= i <= n,
            next_separator(line@, start as int) == next_separator(line@, i as int),
            views(out@) + fields_from(line@, start as int) == line_fields(line@),
        decreases n - i,
    {
        let k = separator_at(&chars, i);
        if k > 0 {
            let piece = line.substring_char(start, i).to_owned();
            proof {
                lemma_next_separator(line@, start as int);
                assert(fields_from(line@, start as int) == seq![piece@] + fields_from(
                    line@,
                    i + k,
                ));
                assert(views(out@.push(piece)) =~= views(out@) + seq![piece@]);
                assert(views(out@) + seq![piece@] + fields_from(line@, i + k) =~= views(out@)
                    + fields_from(line@, start as int));
            }
            out.push(piece);
            i = i + k;
            start = i;
        } else {
            i = i + 1;
        }
    }
    let last = line.substring_char(start, n).to_owned();
    proof {
        assert(next_separator(line@, i as int) == -1);
        assert(fields_from(line@, start as int) == seq![last@]);
        assert(views(out@.push(last)) =~= views(out@) + seq![last@]);
    }
    out.push(last);
    out
}

/// One login, as the section shows it.
pub struct LoginEntry {
    pub username: String,
    pub location: String,
    pub start_time: String,
    pub end_time: String,
}

/// Reads a line of `last` output: fields one, three, four and five are the
/// user, the location, the start and the end of the login. A line with fewer
/// than five fields is no login.
pub fn parse_entry(line: &str) -> (r: Option<LoginEntry>)
    ensures
        r is Some <==> line_fields(line@).len() >= 5,
        r matches Some(e) ==> {
            &&& e.username@ == line_fields(line@)[0]
            &&& e.location@ == line_fields(line@)[2]
            &&& e.start_time@ == line_fields(line@)[3]
            &&& e.end_time@ == line_fields(line@)[4]
        },
{
    let items = split_fields(line);
    assert(views(items@).len() == items@.len());
    if items.len() < 5 {
        return None;
    }
    Some(
        LoginEntry {
            username: items[0].as_str().to_owned(),
            location: items[2].as_str().to_owned(),
            start_time: items[3].as_str().to_owned(),
            end_time: items[4].as_str().to_owned(),
        },
    )
}

/// Green for a session that is still open, no colour otherwise.
pub open spec fn end_time_colour_of(end_time: Seq<char>) -> Option<LocalColor> {
    if end_time == "still logged in"@ {
        Some(LocalColor::Green)
    } else {
        None
    }
}

/// The colour of a login's end time.
pub fn end_time_colour(end_time: &str) -> (r: Option<LocalColor>)
    ensures
        r == end_time_colour_of(end_time@),
{
    if same_text(end_time, "still logged in") {
        Some(LocalColor::Green)
    } else {
        None
    }
}

/// The arguments of `last` for one user's logins: addresses as IPs, full
/// times, then the optional limit and start date, then the user.
pub open spec fn last_args_of(username: Seq<char>, max_lines: Option<usize>, since: Option<Seq<char>>) -> Seq<Seq<char>> {
    seq!["--ip"@, "--time-format=full"@] + match max_lines {
        Some(n) => seq!["--limit"@, decimal(n as nat)],
        None => Seq::empty(),
    } + match since {
        Some(s) => seq!["--since"@, s],
        None => Seq::empty(),
    } + seq![username]
}

/// Builds the arguments of `last` for one user's logins.
pub fn user_last_logins_args(username: &str, max_lines: Option<usize>, since: Option<&str>) -> (r:
    Vec<String>)
    ensures
        views(r@) == last_args_of(
            username@,
            max_lines,
            match since {
                Some(s) => Some(s@),
                None => None,
            },
        ),
{
    let mut r: Vec<String> = Vec::new();
    r.push("--ip".to_owned());
    r.push("--time-format=full".to_owned());
    match max_lines {
        Some(n) => {
            r.push("--limit".to_owned());
            r.push(u64_text(n as u64));
        },
        None => {},
    }
    match since {
        Some(s) => {
            r.push("--since".to_owned());
            r.push(s.to_owned());
        },
        None => {},
    }
    r.push(username.to_owned());
    assert(views(r@) =~= last_args_of(
        username@,
        max_lines,
        match since {
            Some(s) => Some(s@),
            None => None,
        },
    ));
    r
}

/// Line `i` of the pieces of an output split at newlines: a carriage return
/// before its newline is not part of the line.
pub open spec fn output_line(pieces: Seq<Seq<char>>, i: int) -> Seq<char> {
    if i < pieces.len() - 1 && pieces[i].len() > 0 && pieces[i].last() == '\r' {
        pieces[i].drop_last()
    } else {
        pieces[i]
    }
}

/// The lines of an output: split at newlines, a carriage return before a
/// newline dropped.
pub open spec fn text_lines(output: Seq<char>) -> Seq<Seq<char>> {
    let pieces = split_on(output, seq!['\n']);
    Seq::new(pieces.len(), |i: int| output_line(pieces, i))
}

/// The logins in `last` output: one per line that has at least five fields,
/// in order.
pub open spec fn login_lines(output: Seq<char>) -> Seq<Seq<char>> {
    text_lines(output).filter(|l: Seq<char>| line_fields(l).len() >= 5)
}

/// `s` without a final carriage return.
fn without_cr(s: &str) -> (r: String)
    ensures
        r@ == (if s@.len() > 0 && s@.last() == '\r' {
            s@.drop_last()
        } else {
            s@
        }),
{
    let chars = char_vec(s);
    let n = chars.len();
    if n > 0 && chars[n - 1] == '\r' {
        slice_text(s, 0, n - 1)
    } else {
        slice_text(s, 0, n)
    }
}

/// Reads the logins in the output of `last`.
pub fn parse_last_output(output: &str) -> (r: Vec<LoginEntry>)
    ensures
        r@.len() == login_lines(output@).len(),
        forall|i: int|
            0 <= i < r@.len() ==> {
                let f = line_fields(login_lines(output@)[i]);
                &&& (#[trigger] r@[i]).username@ == f[0]
                &&& r@[i].location@ == f[2]
                &&& r@[i].start_time@ == f[3]
                &&& r@[i].end_time@ == f[4]
            },
{
    let nl = "\n";
    proof {
        reveal_strlit("\n");
        assert(nl@ =~= seq!['\n']);
    }
    let pieces = split_by(output, nl);
    let ghost ps = views(pieces@);
    let ghost ls = text_lines(output@);
    let ghost keep = |l: Seq<char>| line_fields(l).len() >= 5;
    let mut r: Vec<LoginEntry> = Vec::new();
    let mut i: usize = 0;
    while i < pieces.len()
        invariant
            i <= pieces@.len(),
            ps == views(pieces@),
            ps == split_on(output@, seq!['\n']),
            ls == text_lines(output@),
            ls.len() == ps.len(),
            keep == (|l: Seq<char>| line_fields(l).len() >= 5),
            r@.len() == ls.take(i as int).filter(keep).len(),
            forall|j: int|
                0 <= j < r@.len() ==> {
                    let f = line_fields(ls.take(i as int).filter(keep)[j]);
                    &&& (#[trigger] r@[j]).username@ == f[0]
                    &&& r@[j].location@ == f[2]
                    &&& r@[j].start_time@ == f[3]
                    &&& r@[j].end_time@ == f[4]
                },
        decreases pieces@.len() - i,
    {
        let ghost before = ls.take(i as int);
        let ghost after = ls.take(i as int + 1);
        let line = if i + 1 < pieces.len() {
            without_cr(pieces[i].as_str())
        } else {
            pieces[i].as_str().to_owned()
        };
        proof {
            assert(line@ == output_line(ps, i as int));
            assert(after.drop_last() =~= before);
            assert(after.last() == ls[i as int]);
            reveal(Seq::filter);
            assert(after.filter(keep) == if keep(ls[i as int]) {
                before.filter(keep).push(ls[i as int])
            } else {
                before.filter(keep)
            });
        }
        match parse_entry(line.as_str()) {
            Some(e) => {
                r.push(e);
            },
            None => {},
        }
        i = i + 1;
    }
    assert(ls.take(pieces@.len() as int) =~= ls);
    r
}

/// The column titles of the section.
pub open spec fn login_header() -> Seq<&'static str> {
    seq!["Username", "Location", "Start", "End"]
}

/// The cells of a login's row.
pub open spec fn login_cells(e: LoginEntry) -> Seq<Seq<char>> {
    seq![e.username@, e.location@, e.start_time@, e.end_time@]
}

/// The colours of a login's row: only the end time has one.
pub open spec fn login_colours(e: LoginEntry) -> Seq<Option<LocalColor>> {
    seq![None, None, None, end_time_colour_of(e.end_time@)]
}

/// Column widths of the section.
pub open spec fn login_widths(entries: Seq<LoginEntry>) -> Seq<usize> {
    let w = widths_of(
        header_lengths(login_header()),
        Seq::new(entries.len(), |i: int| cell_lengths(login_cells(entries[i]))),
    );
    Seq::new(w.len(), |i: int| w[i] as usize)
}

/// The lines of the logins section: the title, the header row, then one row
/// per login, its end time in green while the session is open.
pub fn login_report(entries: &Vec<LoginEntry>, indent: &str) -> (r: Vec<String>)
    ensures
        r@.len() == 2 + entries@.len(),
        r@[0]@ == "Logins:"@,
        r@[1]@ == row_text(
            indent@,
            login_header().map_values(|c: &str| c@),
            login_widths(entries@),
        ),
        forall|i: int|
            0 <= i < entries@.len() ==> coloured_row(
                #[trigger] r@[2 + i]@,
                indent@,
                padded_cells(login_cells(entries@[i]), login_widths(entries@)),
                login_colours(entries@[i]),
            ),
{
    let mut cells: Vec<Vec<String>> = Vec::new();
    let mut lens: Vec<Vec<usize>> = Vec::new();
    let mut i: usize = 0;
    while i < entries.len()
        invariant
            i <= entries@.len(),
            cells@.len() == i,
            lens@.len() == i,
            forall|j: int|
                0 <= j < i ==> views((#[trigger] cells@[j])@) == login_cells(entries@[j]),
            forall|j: int|
                0 <= j < i ==> (#[trigger] lens@[j])@ == cell_lengths(login_cells(entries@[j])),
        decreases entries@.len() - i,
    {
        let e = &entries[i];
        let mut row: Vec<String> = Vec::new();
        row.push(e.username.as_str().to_owned());
        row.push(e.location.as_str().to_owned());
        row.push(e.start_time.as_str().to_owned());
        row.push(e.end_time.as_str().to_owned());
        assert(views(row@) =~= login_cells(*e));
        let l = text_lengths(&row);
        cells.push(row);
        lens.push(l);
        i = i + 1;
    }
    let header: Vec<&str> = vec!["Username", "Location", "Start", "End"];
    assert(header@ =~= login_header());
    let ghost rows = Seq::new(entries@.len(), |i: int| cell_lengths(login_cells(entries@[i])));
    assert(lens@.map_values(|row: Vec<usize>| row@) =~= rows);
    let widths = column_widths(header.as_slice(), &lens);
    assert(widths@ =~= login_widths(entries@));
    let mut lines: Vec<String> = Vec::new();
    lines.push("Logins:".to_owned());
    let header_cells = owned_all(&header);
    assert(views(header_cells@).len() == header_cells@.len());
    assert(views(header_cells@) == login_header().map_values(|c: &str| c@));
    lines.push(render_row(&header_cells, &widths, Some(indent)));
    let mut i: usize = 0;
    while i < entries.len()
        invariant
            i <= entries@.len(),
            cells@.len() == entries@.len(),
            widths@ == login_widths(entries@),
            widths@.len() == 4,
            forall|j: int|
                0 <= j < entries@.len() ==> views((#[trigger] cells@[j])@) == login_cells(
                    entries@[j],
                ),
            lines@.len() == 2 + i,
            lines@[0]@ == "Logins:"@,
            lines@[1]@ == row_text(
                indent@,
                login_header().map_values(|c: &str| c@),
                login_widths(entries@),
            ),
            forall|j: int|
                0 <= j < i ==> coloured_row(
                    #[trigger] lines@[2 + j]@,
                    indent@,
                    padded_cells(login_cells(entries@[j]), widths@),
                    login_colours(entries@[j]),
                ),
        decreases entries@.len() - i,
    {
        assert(views(cells@[i as int]@) == login_cells(entries@[i as int]));
        assert(views(cells@[i as int]@).len() == cells@[i as int]@.len());
        let padded = format_width(&cells[i], &widths);
        assert(views(padded@).len() == padded@.len());
        let mut colours: Vec<Option<LocalColor>> = Vec::new();
        colours.push(None);
        colours.push(None);
        colours.push(None);
        colours.push(end_time_colour(entries[i].end_time.as_str()));
        assert(colours@ =~= login_colours(entries@[i as int]));
        let line = render_row_colour(&padded, &colours, Some(indent));
        lines.push(line);
        i = i + 1;
    }
    lines
}

} // verus!
