//! The services section: the state and memory use of each configured systemd
//! service, read from the output of `systemctl show`.

use crate::config::{LocalColor, ServiceConfig};
use crate::style::{coloured_row, paint, painted, plain, visible};
use crate::text::{
    byte_size, byte_size_text, contains_seq, contains_text, is_prefix, pad, pad_to,
    split_by, split_on, strip_prefix, u64_numeral, parse_u64, same_text, views,
};
use crate::util::{
    cell_lengths, colour_for, column_widths, lemma_coloured_row_aligns, format_width, header_lengths, owned_all,
    padded_cells, render_row, render_row_colour, row_text, select_colour_number, text_lengths,
    widths_of,
};
use vstd::prelude::*;

verus! {

/// Why a service's status could not be read.
#[derive(Clone, Copy, Debug, PartialEq, Eq, Structural)]
pub enum ServiceError {
    /// The status holds no `Id=` line.
    NoServiceId,
    /// The status's `Id=` does not name the service asked for.
    ServiceIdMismatch,
    /// The output holds fewer statuses than services were asked for.
    StatusCountMismatch,
}

/// The value of the last line of `lines` that starts with `key`, if any.
pub open spec fn last_value(lines: Seq<Seq<char>>, key: Seq<char>) -> Option<Seq<char>>
    decreases lines.len(),
{
    if lines.len() == 0 {
        None
    } else if is_prefix(key, lines.last()) {
        Some(lines.last().skip(key.len() as int))
    } else {
        last_value(lines.drop_last(), key)
    }
}

/// The lines of a service's status.
pub open spec fn status_lines(status: Seq<char>) -> Seq<Seq<char>> {
    split_on(status, seq!['\n'])
}

/// The service's id in its status.
pub open spec fn status_id(status: Seq<char>) -> Option<Seq<char>> {
    last_value(status_lines(status), "Id="@)
}

/// The service's active state, or a placeholder when the status has none.
pub open spec fn status_active(status: Seq<char>) -> Seq<char> {
    match last_value(status_lines(status), "ActiveState="@) {
        Some(v) => v,
        None => "Unknown active state"@,
    }
}

/// The service's sub-state, or a placeholder when the status has none.
pub open spec fn status_sub(status: Seq<char>) -> Seq<char> {
    match last_value(status_lines(status), "SubState="@) {
        Some(v) => v,
        None => "Unknown sub state"@,
    }
}

/// The service's memory use in bytes when the status reports one; a value
/// that is no number counts as 0.
pub open spec fn status_memory(status: Seq<char>) -> Option<u64> {
    match last_value(status_lines(status), "MemoryCurrent="@) {
        Some(v) => Some(
            match u64_numeral(v) {
                Some(n) => n,
                None => 0,
            },
        ),
        None => None,
    }
}

/// The error reading `status` for service `name` gives, if any.
pub open spec fn status_error(name: Seq<char>, status: Seq<char>) -> Option<ServiceError> {
    match status_id(status) {
        None => Some(ServiceError::NoServiceId),
        Some(id) => if contains_seq(id, name) {
            None
        } else {
            Some(ServiceError::ServiceIdMismatch)
        },
    }
}

/// One service, as the section shows it.
pub struct ServiceEntry {
    pub service_name: String,
    pub active_state: String,
    pub sub_state: String,
    /// Memory use in bytes, when reported.
    pub mem_current: Option<u64>,
}

/// Reads one service's `Key=Value` status block. The last line for a key wins.
pub fn parse_entry(service_name: &str, status_output: &str) -> (r: Result<
    ServiceEntry,
    ServiceError,
>)
    ensures
        match r {
            Ok(e) => {
                &&& status_error(service_name@, status_output@) is None
                &&& e.service_name@ == service_name@
                &&& e.active_state@ == status_active(status_output@)
                &&& e.sub_state@ == status_sub(status_output@)
                &&& e.mem_current == status_memory(status_output@)
            },
            Err(x) => status_error(service_name@, status_output@) == Some(x),
        },
{
    let nl = "\n";
    let k_active = "ActiveState=";
    let k_sub = "SubState=";
    let k_mem = "MemoryCurrent=";
    let k_id = "Id=";
    proof {
        reveal_strlit("\n");
        reveal_strlit("ActiveState=");
        reveal_strlit("SubState=");
        reveal_strlit("MemoryCurrent=");
        reveal_strlit("Id=");
        assert(nl@ =~= seq!['\n']);
    }
    let lines = split_by(status_output, nl);
    let ghost ls = views(lines@);
    let mut active: Option<String> = None;
    let mut sub: Option<String> = None;
    let mut mem: Option<String> = None;
    let mut id: Option<String> = None;
    let mut i: usize = 0;
    while i < lines.len()
        invariant
            i <= lines@.len(),
            ls == views(lines@),
            k_active@ == "ActiveState="@,
            k_sub@ == "SubState="@,
            k_mem@ == "MemoryCurrent="@,
            k_id@ == "Id="@,
            k_active@.len() == 12 && k_active@[0] == 'A',
            k_sub@.len() == 9 && k_sub@[0] == 'S',
            k_mem@.len() == 14 && k_mem@[0] == 'M',
            k_id@.len() == 3 && k_id@[0] == 'I',
            last_value(ls.take(i as int), k_active@) == (match active {
                Some(v) => Some(v@),
                None => None,
            }),
            last_value(ls.take(i as int), k_sub@) == (match sub {
                Some(v) => Some(v@),
                None => None,
            }),
            last_value(ls.take(i as int), k_mem@) == (match mem {
                Some(v) => Some(v@),
                None => None,
            }),
            last_value(ls.take(i as int), k_id@) == (match id {
                Some(v) => Some(v@),
                None => None,
            }),
        decreases lines@.len() - i,
    {
        let line = lines[i].as_str();
        let ghost l = ls[i as int];
        assert(line@ == l);
        assert(ls.take(i as int + 1).drop_last() =~= ls.take(i as int));
        assert(ls.take(i as int + 1).last() == l);
        if let Some(v) = strip_prefix(line, k_active) {
            assert(l[0] == 'A');
            assert(!is_prefix(k_sub@, l) && !is_prefix(k_mem@, l) && !is_prefix(k_id@, l)) by {
                if l.len() >= 9 {
                    assert(l.take(9)[0] == l[0]);
                }
                if l.len() >= 14 {
                    assert(l.take(14)[0] == l[0]);
                }
                if l.len() >= 3 {
                    assert(l.take(3)[0] == l[0]);
                }
            }
            active = Some(v);
        } else if let Some(v) = strip_prefix(line, k_sub) {
            assert(l[0] == 'S');
            assert(!is_prefix(k_mem@, l) && !is_prefix(k_id@, l)) by {
                if l.len() >= 14 {
                    assert(l.take(14)[0] == l[0]);
                }
                if l.len() >= 3 {
                    assert(l.take(3)[0] == l[0]);
                }
            }
            sub = Some(v);
        } else if let Some(v) = strip_prefix(line, k_mem) {
            assert(l[0] == 'M');
            assert(!is_prefix(k_id@, l)) by {
                if l.len() >= 3 {
                    assert(l.take(3)[0] == l[0]);
                }
            }
            mem = Some(v);
        } else if let Some(v) = strip_prefix(line, k_id) {
            id = Some(v);
        }
        i = i + 1;
    }
    assert(ls.take(lines@.len() as int) =~= ls);
    let id = match id {
        Some(v) => v,
        None => {
            return Err(ServiceError::NoServiceId);
        },
    };
    if !contains_text(id.as_str(), service_name) {
        return Err(ServiceError::ServiceIdMismatch);
    }
    let active_state = match active {
        Some(v) => v,
        None => "Unknown active state".to_owned(),
    };
    let sub_state = match sub {
        Some(v) => v,
        None => "Unknown sub state".to_owned(),
    };
    let mem_current = match mem {
        Some(v) => Some(
            match parse_u64(v.as_str()) {
                Some(n) => n,
                None => 0,
            },
        ),
        None => None,
    };
    Ok(ServiceEntry { service_name: service_name.to_owned(), active_state, sub_state, mem_current })
}

/// Green for a running active service, yellow for anything else.
pub open spec fn state_colour_of(active_state: Seq<char>, sub_state: Seq<char>) -> LocalColor {
    if active_state == "active"@ && sub_state == "running"@ {
        LocalColor::Green
    } else {
        LocalColor::Yellow
    }
}

/// The colour of a service's state.
pub fn service_state_colour(active_state: &str, sub_state: &str) -> (r: LocalColor)
    ensures
        r == state_colour_of(active_state@, sub_state@),
{
    if same_text(active_state, "active") && same_text(sub_state, "running") {
        LocalColor::Green
    } else {
        LocalColor::Yellow
    }
}

/// The text of a service's state: `active (sub)`.
pub open spec fn state_text(active_state: Seq<char>, sub_state: Seq<char>) -> Seq<char> {
    active_state + " ("@ + sub_state + ")"@
}

/// The state text of a service.
pub fn service_state_text(active_state: &str, sub_state: &str) -> (r: String)
    ensures
        r@ == state_text(active_state@, sub_state@),
{
    let mut r = active_state.to_owned();
    r.append(" (");
    r.append(sub_state);
    r.append(")");
    r
}

/// The service's state padded to `width` and painted in the colour
/// `service_state_colour` picks.
pub fn format_service_state(active_state: &str, sub_state: &str, width: usize) -> (r: String)
    ensures
        plain(state_text(active_state@, sub_state@)) ==> painted(
            r@,
            pad_to(state_text(active_state@, sub_state@), width as int, ' '),
            state_colour_of(active_state@, sub_state@),
        ),
{
    let colour = service_state_colour(active_state, sub_state);
    let state = service_state_text(active_state, sub_state);
    let padded = pad(state.as_str(), width);
    proof {
        if plain(state@) {
            assert forall|k: int| 0 <= k < padded@.len() implies padded@[k] != crate::style::esc() by {
                if k >= state@.len() {
                    assert(padded@[k] == ' ');
                } else {
                    assert(padded@[k] == state@[k]);
                }
            }
        }
    }
    paint(padded.as_str(), colour)
}

/// The colour of a service's memory use: by its configured bands when both
/// the bands and a reading exist, else white.
pub open spec fn memory_colour_of(mem_current: Option<u64>, cfg: ServiceConfig) -> LocalColor {
    match (cfg.memory_usage, mem_current) {
        (Some(cc), Some(m)) => colour_for(m, cc.default_colour, cc.levels@),
        _ => LocalColor::White,
    }
}

/// The colour of a service's memory use.
pub fn memory_colour(mem_current: Option<u64>, cfg: &ServiceConfig) -> (r: LocalColor)
    ensures
        r == memory_colour_of(mem_current, *cfg),
{
    match (&cfg.memory_usage, mem_current) {
        (Some(cc), Some(m)) => select_colour_number(m, cc),
        _ => LocalColor::White,
    }
}

/// The memory use shown: the reading, or 0 bytes without one.
pub open spec fn memory_text(mem_current: Option<u64>) -> Seq<char> {
    byte_size_text(
        match mem_current {
            Some(m) => m,
            None => 0,
        },
    )
}

/// The service's memory use as text, painted in the colour `memory_colour` picks.
pub fn format_mem_current(mem_current: Option<u64>, cfg: &ServiceConfig) -> (r: String)
    ensures
        painted(r@, memory_text(mem_current), memory_colour_of(mem_current, *cfg)),
{
    let colour = memory_colour(mem_current, cfg);
    let bytes = match mem_current {
        Some(m) => m,
        None => 0,
    };
    let text = byte_size(bytes);
    assert(plain(text@));
    paint(text.as_str(), colour)
}

/// The names of the configured services in the order they are shown: by
/// code points.
pub fn ordered_service_names(names: Vec<String>) -> (r: Vec<String>)
    ensures
        r@.to_multiset() == names@.to_multiset(),
        forall|i: int, j: int| 0 <= i < j < r@.len() ==> crate::text::text_le(r@[i]@, r@[j]@),
{
    let mut names = names;
    crate::text::sort_texts(&mut names);
    names
}

/// The column titles of the section.
pub open spec fn service_header() -> Seq<&'static str> {
    seq!["Service", "Status", "Memory Usage"]
}

/// The uncoloured cells of a service's row.
pub open spec fn service_cells(name: Seq<char>, status: Seq<char>) -> Seq<Seq<char>> {
    seq![
        name,
        state_text(status_active(status), status_sub(status)),
        memory_text(status_memory(status)),
    ]
}

/// The colours of a service's row.
pub open spec fn service_colours(status: Seq<char>, cfg: ServiceConfig) -> Seq<Option<LocalColor>> {
    seq![
        None,
        Some(state_colour_of(status_active(status), status_sub(status))),
        Some(memory_colour_of(status_memory(status), cfg)),
    ]
}

/// Column widths of the section for the services and their statuses.
pub open spec fn service_widths(names: Seq<Seq<char>>, statuses: Seq<Seq<char>>) -> Seq<usize> {
    let w = widths_of(
        header_lengths(service_header()),
        Seq::new(names.len(), |i: int| cell_lengths(service_cells(names[i], statuses[i]))),
    );
    Seq::new(w.len(), |i: int| w[i] as usize)
}

/// `systemctl show` was asked about some services and its output does not
/// hold one status per service.
pub open spec fn count_mismatch(n: nat, output: Seq<char>) -> bool {
    n > 0 && status_blocks(output).len() != n
}

/// The statuses in the output of `systemctl show`: blocks separated by a blank line.
pub open spec fn status_blocks(output: Seq<char>) -> Seq<Seq<char>> {
    split_on(output, seq!['\n', '\n'])
}

/// The lines of the services section for services `names` (in the order they
/// were passed to `systemctl show`) with their configurations `configs`, from
/// that command's `output`: the title, the header row, then one coloured row
/// per service. Statuses are matched to services by position; fewer statuses
/// than services is an error, as is a status that cannot be read.
pub fn services_report(
    names: &Vec<String>,
    configs: &Vec<ServiceConfig>,
    output: &str,
    indent: &str,
) -> (r: Result<Vec<String>, ServiceError>)
    requires
        configs@.len() == names@.len(),
    ensures
        count_mismatch(names@.len(), output@) ==> r == Err::<Vec<String>, ServiceError>(
            ServiceError::StatusCountMismatch,
        ),
        !count_mismatch(names@.len(), output@) ==> (r is Ok <==> forall|i: int|
            0 <= i < names@.len() ==> status_error(
                #[trigger] names@[i]@,
                status_blocks(output@)[i],
            ) is None),
        r matches Err(x) ==> x == ServiceError::StatusCountMismatch || exists|i: int|
            0 <= i < names@.len() && status_error(#[trigger] names@[i]@, status_blocks(output@)[i])
                == Some(x),
        r matches Ok(lines) ==> {
            let blocks = status_blocks(output@);
            let widths = service_widths(views(names@), blocks);
            &&& lines@.len() == 2 + names@.len()
            &&& lines@[0]@ == "System services:"@
            &&& lines@[1]@ == row_text(
                indent@,
                service_header().map_values(|c: &str| c@),
                widths,
            )
            &&& forall|i: int|
                0 <= i < names@.len() ==> coloured_row(
                    #[trigger] lines@[2 + i]@,
                    indent@,
                    padded_cells(service_cells(names@[i]@, blocks[i]), widths),
                    service_colours(blocks[i], configs@[i]),
                )
            &&& forall|i: int|
                0 <= i < names@.len() && plain(indent@) && plain(names@[i]@) && plain(
                    state_text(status_active(blocks[i]), status_sub(blocks[i])),
                ) ==> visible(#[trigger] lines@[2 + i]@) == row_text(
                    indent@,
                    service_cells(names@[i]@, blocks[i]),
                    widths,
                )
        },
{
    let sep = "\n\n";
    proof {
        reveal_strlit("\n\n");
        assert(sep@ =~= seq!['\n', '\n']);
    }
    let blocks = split_by(output, sep);
    let ghost bs = views(blocks@);
    if names.len() > 0 && blocks.len() != names.len() {
        return Err(ServiceError::StatusCountMismatch);
    }
    let mut cells: Vec<Vec<String>> = Vec::new();
    let mut colours: Vec<Vec<Option<LocalColor>>> = Vec::new();
    let mut lens: Vec<Vec<usize>> = Vec::new();
    let mut i: usize = 0;
    while i < names.len()
        invariant
            i <= names@.len(),
            configs@.len() == names@.len(),
            names@.len() == 0 || blocks@.len() == names@.len(),
            bs == views(blocks@),
            bs == status_blocks(output@),
            cells@.len() == i,
            colours@.len() == i,
            lens@.len() == i,
            forall|j: int| 0 <= j < i ==> status_error(#[trigger] names@[j]@, bs[j]) is None,
            forall|j: int| 0 <= j < i ==> plain(memory_text(status_memory(#[trigger] bs[j]))),
            forall|j: int|
                0 <= j < i ==> views((#[trigger] cells@[j])@) == service_cells(names@[j]@, bs[j]),
            forall|j: int|
                0 <= j < i ==> (#[trigger] colours@[j])@ == service_colours(bs[j], configs@[j]),
            forall|j: int|
                0 <= j < i ==> (#[trigger] lens@[j])@ == cell_lengths(
                    service_cells(names@[j]@, bs[j]),
                ),
        decreases names@.len() - i,
    {
        let e = match parse_entry(names[i].as_str(), blocks[i].as_str()) {
            Ok(e) => e,
            Err(x) => {
                return Err(x);
            },
        };
        let mut row: Vec<String> = Vec::new();
        row.push(e.service_name);
        row.push(service_state_text(e.active_state.as_str(), e.sub_state.as_str()));
        let bytes = match e.mem_current {
            Some(m) => m,
            None => 0,
        };
        let mem_text = byte_size(bytes);
        assert(plain(mem_text@));
        row.push(mem_text);
        assert(views(row@) =~= service_cells(names@[i as int]@, bs[i as int]));
        let mut row_colours: Vec<Option<LocalColor>> = Vec::new();
        row_colours.push(None);
        row_colours.push(
            Some(service_state_colour(e.active_state.as_str(), e.sub_state.as_str())),
        );
        row_colours.push(Some(memory_colour(e.mem_current, &configs[i])));
        assert(row_colours@ =~= service_colours(bs[i as int], configs@[i as int]));
        let l = text_lengths(&row);
        cells.push(row);
        colours.push(row_colours);
        lens.push(l);
        i = i + 1;
    }
    let header: Vec<&str> = vec!["Service", "Status", "Memory Usage"];
    assert(header@ =~= service_header());
    let ghost rows = Seq::new(
        names@.len(),
        |i: int| cell_lengths(service_cells(views(names@)[i], bs[i])),
    );
    assert(lens@.map_values(|row: Vec<usize>| row@) =~= rows);
    let widths = column_widths(header.as_slice(), &lens);
    assert(widths@ =~= service_widths(views(names@), bs));
    let mut lines: Vec<String> = Vec::new();
    lines.push("System services:".to_owned());
    let header_cells = owned_all(&header);
    assert(views(header_cells@).len() == header_cells@.len());
    assert(views(header_cells@) == service_header().map_values(|c: &str| c@));
    lines.push(render_row(&header_cells, &widths, Some(indent)));
    let mut i: usize = 0;
    while i < names.len()
        invariant
            i <= names@.len(),
            cells@.len() == names@.len(),
            colours@.len() == names@.len(),
            widths@ == service_widths(views(names@), bs),
            widths@.len() == 3,
            forall|j: int|
                0 <= j < names@.len() ==> plain(memory_text(status_memory(#[trigger] bs[j]))),
            forall|j: int|
                0 <= j < names@.len() ==> views((#[trigger] cells@[j])@) == service_cells(
                    names@[j]@,
                    bs[j],
                ),
            forall|j: int|
                0 <= j < names@.len() ==> (#[trigger] colours@[j])@ == service_colours(
                    bs[j],
                    configs@[j],
                ),
            lines@.len() == 2 + i,
            lines@[0]@ == "System services:"@,
            lines@[1]@ == row_text(
                indent@,
                service_header().map_values(|c: &str| c@),
                service_widths(views(names@), bs),
            ),
            forall|j: int|
                0 <= j < i ==> coloured_row(
                    #[trigger] lines@[2 + j]@,
                    indent@,
                    padded_cells(service_cells(names@[j]@, bs[j]), widths@),
                    service_colours(bs[j], configs@[j]),
                ),
            forall|j: int|
                0 <= j < i && plain(indent@) && plain(names@[j]@) && plain(
                    state_text(status_active(bs[j]), status_sub(bs[j])),
                ) ==> visible(#[trigger] lines@[2 + j]@) == row_text(
                    indent@,
                    service_cells(names@[j]@, bs[j]),
                    widths@,
                ),
        decreases names@.len() - i,
    {
        assert(views(cells@[i as int]@) == service_cells(names@[i as int]@, bs[i as int]));
        assert(views(cells@[i as int]@).len() == cells@[i as int]@.len());
        let padded = format_width(&cells[i], &widths);
        assert(views(padded@).len() == padded@.len());
        assert(colours@[i as int]@.len() == 3);
        let line = render_row_colour(&padded, &colours[i], Some(indent));
        proof {
            let c = service_cells(names@[i as int]@, bs[i as int]);
            if plain(indent@) && plain(names@[i as int]@) && plain(
                state_text(status_active(bs[i as int]), status_sub(bs[i as int])),
            ) {
                assert(plain(c[2]));
                assert forall|k: int| 0 <= k < c.len() implies plain(#[trigger] c[k]) by {
                    if k == 0 {
                    } else if k == 1 {
                    } else {
                    }
                }
                lemma_coloured_row_aligns(
                    line@,
                    indent@,
                    c,
                    widths@,
                    service_colours(bs[i as int], configs@[i as int]),
                );
            }
        }
        lines.push(line);
        i = i + 1;
    }
    assert(views(names@) =~= names@.map_values(|s: String| s@));
    Ok(lines)
}

} // verus!
