use sysstatus::config::{ColouringLevel, ConditionalColour, LocalColor};
use sysstatus::style::paint;
use sysstatus::util::{
    column_widths, format_width, render_row, render_row_colour, select_colour_number,
};

fn bands() -> ConditionalColour<i32> {
    ConditionalColour {
        default_colour: LocalColor::White,
        levels: vec![
            ColouringLevel {
                min: 1,
                colour: LocalColor::Green,
            },
            ColouringLevel {
                min: 5,
                colour: LocalColor::Yellow,
            },
            ColouringLevel {
                min: 10,
                colour: LocalColor::Red,
            },
        ],
    }
}

/// The text without its `ESC [ ... m` sequences.
fn strip_escapes(s: &str) -> String {
    let mut out = String::new();
    let mut chars = s.chars().peekable();
    while let Some(c) = chars.next() {
        if c == '\x1b' && chars.peek() == Some(&'[') {
            for d in chars.by_ref() {
                if d == 'm' {
                    break;
                }
            }
        } else {
            out.push(c);
        }
    }
    out
}

fn strings(v: &[&str]) -> Vec<String> {
    v.iter().map(|s| s.to_string()).collect()
}

#[test]
fn test_select_colour_number() {
    let cc = bands();
    assert_eq!(select_colour_number(0, &cc), LocalColor::White);
    assert_eq!(select_colour_number(1, &cc), LocalColor::Green);
    assert_eq!(select_colour_number(4, &cc), LocalColor::Green);
    assert_eq!(select_colour_number(5, &cc), LocalColor::Yellow);
    assert_eq!(select_colour_number(9, &cc), LocalColor::Yellow);
    assert_eq!(select_colour_number(10, &cc), LocalColor::Red);
}

#[test]
fn below_every_band_gives_default() {
    let cc = bands();
    assert_eq!(select_colour_number(-100, &cc), LocalColor::White);
    let empty: ConditionalColour<u64> = ConditionalColour {
        default_colour: LocalColor::Cyan,
        levels: vec![],
    };
    assert_eq!(select_colour_number(0u64, &empty), LocalColor::Cyan);
    assert_eq!(select_colour_number(u64::MAX, &empty), LocalColor::Cyan);
}

#[test]
fn last_band_reached_wins() {
    let cc = bands();
    assert_eq!(select_colour_number(1000, &cc), LocalColor::Red);
    let dup = ConditionalColour {
        default_colour: LocalColor::White,
        levels: vec![
            ColouringLevel {
                min: 3u64,
                colour: LocalColor::Blue,
            },
            ColouringLevel {
                min: 3u64,
                colour: LocalColor::TrueColor { r: 1, g: 2, b: 3 },
            },
        ],
    };
    assert_eq!(
        select_colour_number(3u64, &dup),
        LocalColor::TrueColor { r: 1, g: 2, b: 3 }
    );
    assert_eq!(select_colour_number(2u64, &dup), LocalColor::White);
}

#[test]
fn band_minimum_is_inclusive_for_floats() {
    let cc = ConditionalColour {
        default_colour: LocalColor::White,
        levels: vec![
            ColouringLevel {
                min: 0.5f32,
                colour: LocalColor::Yellow,
            },
            ColouringLevel {
                min: 0.9f32,
                colour: LocalColor::Red,
            },
        ],
    };
    assert_eq!(select_colour_number(0.49f32, &cc), LocalColor::White);
    assert_eq!(select_colour_number(0.5f32, &cc), LocalColor::Yellow);
    assert_eq!(select_colour_number(0.9f32, &cc), LocalColor::Red);
}

#[test]
fn column_widths_scenario() {
    let header = ["Mount", "Used"];
    let rows = vec![vec![1usize, 3], vec![5, 4]];
    assert_eq!(column_widths(&header, &rows), vec![5, 4]);
}

#[test]
fn column_widths_header_floor_and_stability() {
    let header = ["Service", "Status", "Memory Usage"];
    let none: Vec<Vec<usize>> = vec![];
    assert_eq!(column_widths(&header, &none), vec![7, 6, 12]);
    let rows = vec![vec![3usize, 20, 5]];
    let once = column_widths(&header, &rows);
    let twice = column_widths(&header, &rows);
    assert_eq!(once, twice);
    assert_eq!(once, vec![7, 20, 12]);
    let mut more = rows.clone();
    more.push(vec![9, 1, 1]);
    let grown = column_widths(&header, &more);
    assert_eq!(grown, vec![9, 20, 12]);
    for i in 0..3 {
        assert!(grown[i] >= once[i]);
    }
}

#[test]
fn column_widths_count_characters() {
    let header = ["Température"];
    let none: Vec<Vec<usize>> = vec![];
    assert_eq!(column_widths(&header, &none), vec![11]);
}

#[test]
fn format_width_pads_each_cell() {
    let cells = strings(&["/", "10%", "toolong"]);
    let widths = vec![5usize, 4, 3];
    assert_eq!(
        format_width(&cells, &widths),
        strings(&["/    ", "10% ", "toolong"])
    );
}

#[test]
fn render_row_layout() {
    let cells = strings(&["/", "10%"]);
    let widths = vec![5usize, 4];
    assert_eq!(render_row(&cells, &widths, Some("    ")), "    /      10% ");
    assert_eq!(render_row(&cells, &widths, None), "/      10% ");
    let empty: Vec<String> = vec![];
    assert_eq!(render_row(&empty, &vec![], Some("> ")), "> ");
}

#[test]
fn render_row_round_trip() {
    let cells = strings(&["/data", "1%", "ext4"]);
    let widths = vec![8usize, 5, 6];
    let line = render_row(&cells, &widths, Some("  "));
    let mut offset = 2;
    for (cell, w) in cells.iter().zip(widths.iter()) {
        let slice: String = line.chars().skip(offset).take(*w).collect();
        assert_eq!(slice.trim_end(), cell);
        offset += w + 2;
    }
    let stripped: Vec<&str> = line[2..].split("  ").filter(|s| !s.is_empty()).collect();
    assert_eq!(stripped.iter().map(|s| s.trim()).collect::<Vec<_>>(), vec!["/data", "1%", "ext4"]);
}

#[test]
fn colour_keeps_visible_row() {
    colored::control::set_override(true);
    let cells = strings(&["alice", "still logged in"]);
    let widths = vec![7usize, 16];
    let padded = format_width(&cells, &widths);
    let coloured = render_row_colour(
        &padded,
        &vec![None, Some(LocalColor::Green)],
        Some("    "),
    );
    let plain = render_row(&cells, &widths, Some("    "));
    assert_ne!(coloured, plain);
    assert_eq!(strip_escapes(&coloured), plain);
    assert_eq!(
        strip_escapes(&coloured).chars().count(),
        plain.chars().count()
    );
}

#[test]
fn paint_wraps_in_colour_codes() {
    colored::control::set_override(true);
    assert_eq!(paint("x", LocalColor::Red), "\x1b[31mx\x1b[0m");
    assert_eq!(paint("ok", LocalColor::BrightGreen), "\x1b[92mok\x1b[0m");
    let rgb = paint("t", LocalColor::TrueColor { r: 1, g: 2, b: 3 });
    assert!(rgb.starts_with("\x1b[") && rgb.ends_with("t\x1b[0m"));
    assert_eq!(strip_escapes(&rgb), "t");
}
