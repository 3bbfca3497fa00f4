//! The disks section: one row per mounted disk and a usage bar below it.

use crate::config::LocalColor;
use crate::style::{paint, painted, plain};
use crate::text::{
    byte_size, byte_size_text, decimal, fill, is_prefix, pad_with, strip_prefix, u64_text,
    views,
};
use crate::util::{
    cell_lengths, column_widths, header_lengths, owned_all, render_row, row_text, text_lengths,
    widths_of,
};
use vstd::prelude::*;

verus! {

/// The kind of storage a disk is.
#[derive(Clone, Copy, Debug, PartialEq, Eq, Structural)]
pub enum DiskKind {
    Hdd,
    Ssd,
    Unknown,
}

/// The label shown for a kind of disk.
pub open spec fn disk_kind_label(kind: DiskKind) -> Seq<char> {
    match kind {
        DiskKind::Hdd => "HDD"@,
        DiskKind::Ssd => "SSD"@,
        DiskKind::Unknown => "N/A"@,
    }
}

/// The label shown for a kind of disk.
pub fn disk_type_label(kind: DiskKind) -> (r: &'static str)
    ensures
        r@ == disk_kind_label(kind),
{
    match kind {
        DiskKind::Hdd => "HDD",
        DiskKind::Ssd => "SSD",
        DiskKind::Unknown => "N/A",
    }
}

/// One mounted disk, as the section shows it.
pub struct DiskEntry {
    pub mount_point: String,
    pub disk_type: DiskKind,
    pub fs_type: String,
    /// Used space in whole percent of the total, rounded down.
    pub used_percent: u64,
    /// Used space in bytes.
    pub used: u64,
    /// Total space in bytes.
    pub total: u64,
}

impl DiskEntry {
    /// The disk has space, uses no more than it has, and its percentage matches.
    pub open spec fn wf(&self) -> bool {
        &&& self.total > 0
        &&& self.used <= self.total
        &&& self.used_percent as int == (100 * self.used as int) / (self.total as int)
    }
}

/// Builds a disk's entry from its total and available space in bytes.
pub fn entry(
    mount_point: String,
    disk_type: DiskKind,
    fs_type: String,
    total: u64,
    available: u64,
) -> (e: DiskEntry)
    requires
        0 < total,
        available <= total,
    ensures
        e.mount_point == mount_point,
        e.disk_type == disk_type,
        e.fs_type == fs_type,
        e.used == total - available,
        e.total == total,
        e.used_percent as int == (100 * (total - available)) / (total as int),
        e.wf(),
{
    let used = total - available;
    let percent = (used as u128 * 100) / total as u128;
    assert(percent <= 100) by (nonlinear_arith)
        requires
            percent == (used as int * 100) / (total as int),
            used <= total,
            total > 0,
    ;
    DiskEntry {
        mount_point,
        disk_type,
        fs_type,
        used_percent: percent as u64,
        used,
        total,
    }
}

/// Length of the filled part of a bar of `width` segments for `used` out of
/// `total`: the ratio times the width, rounded down.
pub open spec fn filled_len(used: u64, total: u64, width: usize) -> int {
    (used as int * width as int) / (total as int)
}

/// Splits a bar of `width` segments into its filled and unfilled parts.
pub fn bar_segments(used: u64, total: u64, width: usize) -> (r: (usize, usize))
    requires
        0 < total,
        used <= total,
    ensures
        r.0 as int == filled_len(used, total, width),
        r.0 + r.1 == width,
{
    assert((used as u128) * (width as u128) <= u128::MAX) by (nonlinear_arith)
        requires
            used <= u64::MAX,
            width <= u64::MAX,
    ;
    let filled = (used as u128 * width as u128) / total as u128;
    assert(filled <= width) by (nonlinear_arith)
        requires
            filled == (used as int * width as int) / (total as int),
            used <= total,
            total > 0,
    ;
    let filled = filled as usize;
    (filled, width - filled)
}

/// `r` is a usage bar: the prefix, `[`, the filled segments painted in
/// `colour`, the unfilled segments, `]`.
pub open spec fn bar_line(
    r: Seq<char>,
    prefix: Seq<char>,
    used: u64,
    total: u64,
    width: usize,
    colour: LocalColor,
) -> bool {
    let filled = filled_len(used, total, width);
    exists|p: Seq<char>|
        {
            &&& painted(p, fill(filled, '='), colour)
            &&& r == prefix + seq!['['] + p + fill(width - filled, '=') + seq![']']
        }
}

/// Draws a usage bar of `bar_width` segments for `used` out of `total`, the
/// filled part in `colour`.
pub fn usage_bar(used: u64, total: u64, bar_width: usize, colour: LocalColor, indent: &str) -> (r:
    String)
    requires
        0 < total,
        used <= total,
    ensures
        bar_line(r@, indent@, used, total, bar_width, colour),
{
    let (filled, unfilled) = bar_segments(used, total, bar_width);
    let seg = "=";
    let open = "[";
    let close = "]";
    proof {
        reveal_strlit("=");
        reveal_strlit("[");
        reveal_strlit("]");
    }
    let filled_text = pad_with("", filled, seg);
    let unfilled_text = pad_with("", unfilled, seg);
    proof {
        reveal_strlit("");
        assert(filled_text@ =~= fill(filled as int, '='));
        assert(unfilled_text@ =~= fill(unfilled as int, '='));
    }
    let painted = paint(filled_text.as_str(), colour);
    let mut r = indent.to_owned();
    r.append(open);
    r.append(painted.as_str());
    r.append(unfilled_text.as_str());
    r.append(close);
    proof {
        assert(plain(filled_text@));
        assert(r@ =~= indent@ + seq!['['] + painted@ + fill(bar_width - filled_len(used, total, bar_width), '=') + seq![']']);
    }
    r
}

/// The column titles of the section.
pub open spec fn disk_header() -> Seq<&'static str> {
    seq!["Mount", "Type", "Filesystem", "Used(%)", "Used", "Total"]
}

/// The cells of a disk's row.
pub open spec fn disk_cells(e: DiskEntry) -> Seq<Seq<char>> {
    seq![
        e.mount_point@,
        disk_kind_label(e.disk_type),
        e.fs_type@,
        decimal(e.used_percent as nat),
        byte_size_text(e.used),
        byte_size_text(e.total),
    ]
}

/// The cells of a disk's row.
pub fn disk_row(e: &DiskEntry) -> (r: Vec<String>)
    ensures
        views(r@) == disk_cells(*e),
{
    let mut r: Vec<String> = Vec::new();
    r.push(e.mount_point.as_str().to_owned());
    r.push(disk_type_label(e.disk_type).to_owned());
    r.push(e.fs_type.as_str().to_owned());
    r.push(u64_text(e.used_percent));
    r.push(byte_size(e.used));
    r.push(byte_size(e.total));
    assert(views(r@) =~= disk_cells(*e));
    r
}

/// Column widths of the section over its header and rows.
pub open spec fn disk_widths(entries: Seq<DiskEntry>) -> Seq<usize> {
    let w = widths_of(
        header_lengths(disk_header()),
        Seq::new(entries.len(), |i: int| cell_lengths(disk_cells(entries[i]))),
    );
    Seq::new(w.len(), |i: int| w[i] as usize)
}

/// Sum of the widths plus two per column, capped at the largest `usize`.
pub open spec fn bar_width_of(widths: Seq<usize>) -> int
    decreases widths.len(),
{
    if widths.len() == 0 {
        0
    } else {
        let rest = bar_width_of(widths.drop_last());
        let sum = rest + widths.last() + 2;
        if sum > usize::MAX {
            usize::MAX as int
        } else {
            sum
        }
    }
}

/// The lines of the disks section: its title, the header row, then for each
/// disk its row and its usage bar, coloured with the matching colour of
/// `bar_colours`. The bar spans the width of the table.
pub fn disks_report(entries: &Vec<DiskEntry>, bar_colours: &Vec<LocalColor>, indent: &str) -> (r:
    Vec<String>)
    requires
        bar_colours@.len() == entries@.len(),
        forall|i: int| 0 <= i < entries@.len() ==> (#[trigger] entries@[i]).wf(),
    ensures
        r@.len() == 2 + 2 * entries@.len(),
        r@[0]@ == "Disks:"@,
        r@[1]@ == row_text(
            indent@,
            disk_header().map_values(|c: &str| c@),
            disk_widths(entries@),
        ),
        forall|i: int|
            0 <= i < entries@.len() ==> {
                &&& r@[2 + 2 * i]@ == row_text(
                    indent@,
                    disk_cells(#[trigger] entries@[i]),
                    disk_widths(entries@),
                )
                &&& bar_line(
                    r@[3 + 2 * i]@,
                    indent@,
                    entries@[i].used,
                    entries@[i].total,
                    bar_width_of(disk_widths(entries@)) as usize,
                    bar_colours@[i],
                )
            },
{
    let header: Vec<&str> = vec!["Mount", "Type", "Filesystem", "Used(%)", "Used", "Total"];
    assert(header@ =~= disk_header());
    let mut cells: Vec<Vec<String>> = Vec::new();
    let mut lens: Vec<Vec<usize>> = Vec::new();
    let mut i: usize = 0;
    while i < entries.len()
        invariant
            i <= entries@.len(),
            cells@.len() == i,
            lens@.len() == i,
            forall|j: int| 0 <= j < i ==> views((#[trigger] cells@[j])@) == disk_cells(entries@[j]),
            forall|j: int|
                0 <= j < i ==> (#[trigger] lens@[j])@ == cell_lengths(disk_cells(entries@[j])),
        decreases entries@.len() - i,
    {
        let row = disk_row(&entries[i]);
        let l = text_lengths(&row);
        cells.push(row);
        lens.push(l);
        i = i + 1;
    }
    let ghost rows = Seq::new(entries@.len(), |i: int| cell_lengths(disk_cells(entries@[i])));
    assert(lens@.map_values(|row: Vec<usize>| row@) =~= rows);
    let widths = column_widths(header.as_slice(), &lens);
    assert(widths@ =~= disk_widths(entries@));
    let mut bar_width: usize = 0;
    let mut k: usize = 0;
    while k < widths.len()
        invariant
            k <= widths@.len(),
            bar_width as int == bar_width_of(widths@.take(k as int)),
        decreases widths@.len() - k,
    {
        assert(widths@.take(k as int + 1).drop_last() =~= widths@.take(k as int));
        if bar_width > usize::MAX - 2 || widths[k] > usize::MAX - 2 - bar_width {
            bar_width = usize::MAX;
        } else {
            bar_width = bar_width + widths[k] + 2;
        }
        k = k + 1;
    }
    assert(widths@.take(widths@.len() as int) =~= widths@);
    let mut lines: Vec<String> = Vec::new();
    lines.push("Disks:".to_owned());
    let header_cells = owned_all(&header);
    assert(views(header_cells@).len() == header_cells@.len());
    assert(views(header_cells@) == disk_header().map_values(|c: &str| c@));
    lines.push(render_row(&header_cells, &widths, Some(indent)));
    let mut i: usize = 0;
    while i < entries.len()
        invariant
            i <= entries@.len(),
            bar_colours@.len() == entries@.len(),
            cells@.len() == entries@.len(),
            widths@ == disk_widths(entries@),
            widths@.len() == 6,
            bar_width as int == bar_width_of(widths@),
            forall|j: int| 0 <= j < entries@.len() ==> (#[trigger] entries@[j]).wf(),
            forall|j: int|
                0 <= j < entries@.len() ==> views((#[trigger] cells@[j])@) == disk_cells(
                    entries@[j],
                ),
            lines@.len() == 2 + 2 * i,
            lines@[0]@ == "Disks:"@,
            lines@[1]@ == row_text(
                indent@,
                disk_header().map_values(|c: &str| c@),
                disk_widths(entries@),
            ),
            forall|j: int|
                0 <= j < i ==> {
                    &&& lines@[2 + 2 * j]@ == row_text(
                        indent@,
                        disk_cells(#[trigger] entries@[j]),
                        disk_widths(entries@),
                    )
                    &&& bar_line(
                        lines@[3 + 2 * j]@,
                        indent@,
                        entries@[j].used,
                        entries@[j].total,
                        bar_width as usize,
                        bar_colours@[j],
                    )
                },
        decreases entries@.len() - i,
    {
        let e = &entries[i];
        assert(e.wf());
        assert(views(cells@[i as int]@) == disk_cells(*e));
        let row_line = render_row(&cells[i], &widths, Some(indent));
        let bar = usage_bar(e.used, e.total, bar_width, bar_colours[i], indent);
        lines.push(row_line);
        lines.push(bar);
        i = i + 1;
    }
    lines
}

/// Some prefix of `exclude_prefixes` starts `path`.
pub open spec fn excluded(path: Seq<char>, exclude_prefixes: Seq<String>) -> bool {
    exists|i: int|
        0 <= i < exclude_prefixes.len() && is_prefix(#[trigger] exclude_prefixes[i]@, path)
}

/// Whether a disk mounted at `mount_point` is left out: some prefix of
/// `exclude_prefixes` starts its path.
pub fn is_excluded(mount_point: &str, exclude_prefixes: &Vec<String>) -> (r: bool)
    ensures
        r == excluded(mount_point@, exclude_prefixes@),
{
    let mut i: usize = 0;
    while i < exclude_prefixes.len()
        invariant
            i <= exclude_prefixes@.len(),
            forall|j: int| 0 <= j < i ==> !is_prefix(#[trigger] exclude_prefixes@[j]@, mount_point@),
        decreases exclude_prefixes@.len() - i,
    {
        if strip_prefix(mount_point, exclude_prefixes[i].as_str()).is_some() {
            return true;
        }
        i = i + 1;
    }
    false
}

/// Positions, in increasing order, of the disks that are shown: those whose
/// mount point no prefix of `exclude_prefixes` starts.
pub fn kept_disks(mount_points: &Vec<String>, exclude_prefixes: &Vec<String>) -> (r: Vec<usize>)
    ensures
        forall|k: int|
            0 <= k < r@.len() ==> (#[trigger] r@[k]) < mount_points@.len() && !excluded(
                mount_points@[r@[k] as int]@,
                exclude_prefixes@,
            ),
        forall|k1: int, k2: int| 0 <= k1 < k2 < r@.len() ==> r@[k1] < r@[k2],
        forall|i: int|
            0 <= i < mount_points@.len() && !excluded(
                #[trigger] mount_points@[i]@,
                exclude_prefixes@,
            ) ==> exists|k: int| 0 <= k < r@.len() && r@[k] == i,
{
    let mut r: Vec<usize> = Vec::new();
    let mut i: usize = 0;
    while i < mount_points.len()
        invariant
            i <= mount_points@.len(),
            forall|k: int|
                0 <= k < r@.len() ==> (#[trigger] r@[k]) < i && !excluded(
                    mount_points@[r@[k] as int]@,
                    exclude_prefixes@,
                ),
            forall|k1: int, k2: int| 0 <= k1 < k2 < r@.len() ==> r@[k1] < r@[k2],
            forall|j: int|
                0 <= j < i && !excluded(#[trigger] mount_points@[j]@, exclude_prefixes@)
                    ==> exists|k: int| 0 <= k < r@.len() && r@[k] == j,
        decreases mount_points@.len() - i,
    {
        if !is_excluded(mount_points[i].as_str(), exclude_prefixes) {
            let ghost old_r = r@;
            r.push(i);
            assert forall|j: int|
                0 <= j < i + 1 && !excluded(
                    #[trigger] mount_points@[j]@,
                    exclude_prefixes@,
                ) implies exists|k: int| 0 <= k < r@.len() && r@[k] == j by {
                if j < i {
                    let k = choose|k: int| 0 <= k < old_r.len() && old_r[k] == j;
                    assert(r@[k] == j);
                } else {
                    assert(r@[r@.len() - 1] == j);
                }
            }
        }
        i = i + 1;
    }
    r
}

} // verus!
