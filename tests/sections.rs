use sysstatus::config::{ColouringLevel, ConditionalColour, LocalColor, ServiceConfig};
use sysstatus::disks::{
    bar_segments, disk_row, disk_type_label, disks_report, entry, is_excluded, kept_disks,
    usage_bar, DiskKind,
};
use sysstatus::general_info::{cpu, general_info, load, memory, uptime};
use sysstatus::last_login::{
    end_time_colour, login_report, parse_entry as parse_login, parse_last_output, split_fields,
    user_last_logins_args,
};
use sysstatus::services::{
    format_mem_current, format_service_state, memory_colour, ordered_service_names, parse_entry,
    service_state_colour, services_report, ServiceError,
};
use sysstatus::temperature::{single_sensor, temperature, SensorReading};
use sysstatus::text::{parse_u64, split_by, u64_text};

fn strip(s: &str) -> String {
    let mut out = String::new();
    let mut chars = s.chars().peekable();
    while let Some(c) = chars.next() {
        if c == '\x1b' && chars.peek() == Some(&'[') {
            for d in chars.by_ref() {
                if d == 'm' {
                    break;
                }
            }
        } else {
            out.push(c);
        }
    }
    out
}

#[test]
fn bar_half_full() {
    assert_eq!(bar_segments(1, 2, 10), (5, 5));
    assert_eq!(bar_segments(0, 7, 10), (0, 10));
    assert_eq!(bar_segments(7, 7, 10), (10, 0));
    assert_eq!(bar_segments(2, 3, 10), (6, 4));
    assert_eq!(bar_segments(u64::MAX, u64::MAX, usize::MAX), (usize::MAX, 0));
}

#[test]
fn usage_bar_segments() {
    let bar = usage_bar(1, 2, 10, LocalColor::Green, "  ");
    assert_eq!(strip(&bar), "  [==========]");
    let filled = bar.split('[').nth(1).unwrap();
    assert!(filled.contains("====="));
}

#[test]
fn disk_entry_percent() {
    let e = entry("/".to_string(), DiskKind::Ssd, "ext4".to_string(), 1000, 250);
    assert_eq!(e.used, 750);
    assert_eq!(e.total, 1000);
    assert_eq!(e.used_percent, 75);
    let e = entry("/b".to_string(), DiskKind::Hdd, "xfs".to_string(), 3, 2);
    assert_eq!(e.used_percent, 33);
    let e = entry("/c".to_string(), DiskKind::Hdd, "xfs".to_string(), u64::MAX, 0);
    assert_eq!(e.used_percent, 100);
}

#[test]
fn disk_labels_and_row() {
    assert_eq!(disk_type_label(DiskKind::Hdd), "HDD");
    assert_eq!(disk_type_label(DiskKind::Ssd), "SSD");
    assert_eq!(disk_type_label(DiskKind::Unknown), "N/A");
    let e = entry("/".to_string(), DiskKind::Unknown, "btrfs".to_string(), 900, 0);
    assert_eq!(
        disk_row(&e),
        vec!["/", "N/A", "btrfs", "100", "900 B", "900 B"]
    );
}

#[test]
fn disk_exclusion_by_prefix() {
    let prefixes = vec!["/var/lib/docker/".to_string(), "/snap".to_string()];
    assert!(is_excluded("/var/lib/docker/overlay", &prefixes));
    assert!(is_excluded("/snap/core/1", &prefixes));
    assert!(is_excluded("/snapshots", &prefixes));
    assert!(!is_excluded("/var/lib", &prefixes));
    assert!(!is_excluded("/", &vec![]));
}

#[test]
fn kept_disks_in_order() {
    let prefixes = vec!["/var/lib/docker/".to_string(), "/snap/".to_string()];
    let paths: Vec<String> = ["/", "/snap/core", "/data", "/var/lib/docker/x", "/home"]
        .iter()
        .map(|s| s.to_string())
        .collect();
    assert_eq!(kept_disks(&paths, &prefixes), vec![0, 2, 4]);
    assert_eq!(kept_disks(&vec![], &prefixes), Vec::<usize>::new());
}

#[test]
fn disks_report_lines() {
    let entries = vec![
        entry("/".to_string(), DiskKind::Ssd, "ext4".to_string(), 100, 90),
        entry("/data".to_string(), DiskKind::Hdd, "xfs".to_string(), 200, 0),
    ];
    let lines = disks_report(&entries, &vec![LocalColor::Green, LocalColor::Red], "  ");
    assert_eq!(lines.len(), 6);
    assert_eq!(lines[0], "Disks:");
    assert_eq!(lines[1], "  Mount  Type  Filesystem  Used(%)  Used   Total");
    assert_eq!(lines[2], "  /      SSD   ext4        10       10 B   100 B");
    assert_eq!(lines[4], "  /data  HDD   xfs         100      200 B  200 B");
    // Widths 5+4+10+7+5+5 plus two per column.
    let bar = strip(&lines[3]);
    assert_eq!(bar, format!("  [{}]", "=".repeat(48)));
    assert_eq!(strip(&lines[5]), format!("  [{}]", "=".repeat(48)));
}

#[test]
fn byte_size_text() {
    let cfg = ServiceConfig { memory_usage: None };
    assert_eq!(strip(&format_mem_current(Some(0), &cfg)), "0 B");
    assert_eq!(strip(&format_mem_current(Some(512), &cfg)), "512 B");
    assert_eq!(strip(&format_mem_current(Some(1500), &cfg)), "1.5 KB");
    assert_eq!(strip(&format_mem_current(Some(2_500_000), &cfg)), "2.5 MB");
}

#[test]
fn uptime_breakdown() {
    assert_eq!(
        uptime(0),
        "0 weeks, 0 days, 0 hours, 0 minutes, 0 seconds"
    );
    assert_eq!(
        uptime(694861),
        "1 weeks, 1 days, 1 hours, 1 minutes, 1 seconds"
    );
    assert_eq!(
        uptime(604799),
        "0 weeks, 6 days, 23 hours, 59 minutes, 59 seconds"
    );
}

#[test]
fn cpu_and_memory_lines() {
    let cc = ConditionalColour {
        default_colour: LocalColor::White,
        levels: vec![ColouringLevel {
            min: 2000u64,
            colour: LocalColor::Red,
        }],
    };
    assert_eq!(strip(&cpu("Ryzen", 3600, &cc)), "Ryzen - 3600 MHz");
    assert_eq!(
        strip(&memory(0, 0, 0, LocalColor::Blue)),
        "0 B used, 0 B available, 0 B total"
    );
    assert_eq!(
        strip(&memory(1000, 2000, 3000, LocalColor::Blue)),
        "1.0 KB used, 2.0 KB available, 3.0 KB total"
    );
    assert_eq!(
        strip(&load("0.5", LocalColor::Green, "1", LocalColor::Yellow, "2", LocalColor::Red)),
        "0.5 (1m), 1 (5m), 2 (15m)"
    );
}

#[test]
fn general_info_layout() {
    let text = general_info(Some("Linux 6"), None, "up", "ld", "mem", "cpu");
    assert_eq!(
        text,
        "General:\n    OS.......: Linux 6\n    Kernel...: N/A\n\n    Uptime...: up\n    Load.....: ld\n\n    Memory...: mem\n    CPU......: cpu\n    "
    );
}

const STATUS_A: &str = "Id=nginx.service\nActiveState=active\nSubState=running\nMemoryCurrent=2048";
const STATUS_B: &str = "Id=redis.service\nActiveState=inactive\nSubState=dead\nMemoryCurrent=[not set]";

#[test]
fn service_status_parsing() {
    let e = parse_entry("nginx", STATUS_A).ok().unwrap();
    assert_eq!(e.service_name, "nginx");
    assert_eq!(e.active_state, "active");
    assert_eq!(e.sub_state, "running");
    assert_eq!(e.mem_current, Some(2048));
    let e = parse_entry("redis", STATUS_B).ok().unwrap();
    assert_eq!(e.mem_current, Some(0));
    let e = parse_entry("x", "Id=x.service").ok().unwrap();
    assert_eq!(e.active_state, "Unknown active state");
    assert_eq!(e.sub_state, "Unknown sub state");
    assert_eq!(e.mem_current, None);
    let e = parse_entry("x", "Id=x.service\nSubState=a\nSubState=b").ok().unwrap();
    assert_eq!(e.sub_state, "b");
}

#[test]
fn service_status_errors() {
    assert_eq!(
        parse_entry("nginx", "ActiveState=active").err(),
        Some(ServiceError::NoServiceId)
    );
    assert_eq!(
        parse_entry("nginx", STATUS_B).err(),
        Some(ServiceError::ServiceIdMismatch)
    );
    let names = vec!["nginx".to_string(), "redis".to_string()];
    let configs = vec![ServiceConfig { memory_usage: None }, ServiceConfig { memory_usage: None }];
    assert_eq!(
        services_report(&names, &configs, STATUS_A, "  ").err(),
        Some(ServiceError::StatusCountMismatch)
    );
    let three = format!("{}\n\n{}\n\n{}", STATUS_A, STATUS_B, STATUS_B);
    assert_eq!(
        services_report(&names, &configs, &three, "  ").err(),
        Some(ServiceError::StatusCountMismatch)
    );
    let none: Vec<String> = vec![];
    let lines = services_report(&none, &vec![], "", "  ").ok().unwrap();
    assert_eq!(lines, vec!["System services:", "  Service  Status  Memory Usage"]);
}

#[test]
fn service_cells_painted_in_their_colours() {
    colored::control::set_override(true);
    let cfg = ServiceConfig {
        memory_usage: Some(ConditionalColour {
            default_colour: LocalColor::Green,
            levels: vec![ColouringLevel {
                min: 1000u64,
                colour: LocalColor::Red,
            }],
        }),
    };
    assert_eq!(format_mem_current(Some(512), &cfg), "\x1b[32m512 B\x1b[0m");
    assert_eq!(format_mem_current(Some(1500), &cfg), "\x1b[31m1.5 KB\x1b[0m");
    assert_eq!(
        format_mem_current(None, &ServiceConfig { memory_usage: None }),
        "\x1b[37m0 B\x1b[0m"
    );
    assert_eq!(
        format_service_state("active", "running", 17),
        "\x1b[32mactive (running) \x1b[0m"
    );
    assert_eq!(
        format_service_state("failed", "failed", 0),
        "\x1b[33mfailed (failed)\x1b[0m"
    );
}

#[test]
fn general_values_painted_in_their_colours() {
    colored::control::set_override(true);
    let cc = ConditionalColour {
        default_colour: LocalColor::White,
        levels: vec![ColouringLevel {
            min: 2000u64,
            colour: LocalColor::Red,
        }],
    };
    assert_eq!(cpu("X", 1000, &cc), "X - \x1b[37m1000\x1b[0m MHz");
    assert_eq!(cpu("X", 2000, &cc), "X - \x1b[31m2000\x1b[0m MHz");
    assert_eq!(
        memory(10, 20, 30, LocalColor::Yellow),
        "\x1b[33m10 B\x1b[0m used, 20 B available, 30 B total"
    );
    assert_eq!(
        load("1", LocalColor::Green, "2", LocalColor::Yellow, "3", LocalColor::Red),
        "\x1b[32m1\x1b[0m (1m), \x1b[33m2\x1b[0m (5m), \x1b[31m3\x1b[0m (15m)"
    );
    assert_eq!(
        single_sensor("cpu", "45", LocalColor::BrightRed, 4),
        "   cpu.: \x1b[91m45\x1b[0m°C"
    );
    assert_eq!(
        usage_bar(1, 2, 4, LocalColor::Blue, ""),
        "[\x1b[34m==\x1b[0m==]"
    );
}

#[test]
fn services_report_rows() {
    let names = vec!["nginx".to_string(), "redis".to_string()];
    let configs = vec![
        ServiceConfig {
            memory_usage: Some(ConditionalColour {
                default_colour: LocalColor::Green,
                levels: vec![ColouringLevel {
                    min: 1024u64,
                    colour: LocalColor::Red,
                }],
            }),
        },
        ServiceConfig { memory_usage: None },
    ];
    let output = format!("{}\n\n{}\n", STATUS_A, STATUS_B);
    let lines = services_report(&names, &configs, &output, "  ").ok().unwrap();
    assert_eq!(lines.len(), 4);
    assert_eq!(lines[0], "System services:");
    assert_eq!(lines[1], "  Service  Status            Memory Usage");
    assert_eq!(strip(&lines[2]), "  nginx    active (running)  2.0 KB      ");
    assert_eq!(strip(&lines[3]), "  redis    inactive (dead)   0 B         ");
    assert_eq!(memory_colour(Some(2048), &configs[0]), LocalColor::Red);
    assert_eq!(memory_colour(Some(10), &configs[0]), LocalColor::Green);
    assert_eq!(memory_colour(None, &configs[0]), LocalColor::White);
    assert_eq!(memory_colour(Some(2048), &configs[1]), LocalColor::White);
}

#[test]
fn service_state_cells() {
    assert_eq!(service_state_colour("active", "running"), LocalColor::Green);
    assert_eq!(service_state_colour("active", "exited"), LocalColor::Yellow);
    assert_eq!(strip(&format_service_state("active", "running", 20)), "active (running)    ");
    let cfg = ServiceConfig { memory_usage: None };
    assert_eq!(strip(&format_mem_current(None, &cfg)), "0 B");
    assert_eq!(strip(&format_mem_current(Some(999), &cfg)), "999 B");
}

#[test]
fn services_sorted_by_name() {
    let names = vec!["b".to_string(), "B".to_string(), "a".to_string()];
    assert_eq!(ordered_service_names(names), vec!["B", "a", "b"]);
}

#[test]
fn decimal_text() {
    assert_eq!(u64_text(0), "0");
    assert_eq!(u64_text(7), "7");
    assert_eq!(u64_text(1030), "1030");
    assert_eq!(u64_text(u64::MAX), "18446744073709551615");
}

#[test]
fn numbers_parse_like_u64() {
    assert_eq!(parse_u64("0"), Some(0));
    assert_eq!(parse_u64("+42"), Some(42));
    assert_eq!(parse_u64("18446744073709551615"), Some(u64::MAX));
    assert_eq!(parse_u64("18446744073709551616"), None);
    assert_eq!(parse_u64(""), None);
    assert_eq!(parse_u64("+"), None);
    assert_eq!(parse_u64("-1"), None);
    assert_eq!(parse_u64("[not set]"), None);
}

#[test]
fn split_keeps_empty_pieces() {
    assert_eq!(split_by("a\n\nb\n", "\n\n"), vec!["a", "b\n"]);
    assert_eq!(split_by("\n\n\n", "\n\n"), vec!["", "\n"]);
    assert_eq!(split_by("", "\n"), vec![""]);
}

const LOGIN_CLOSED: &str =
    "alice    pts/0        192.168.1.10     Mon Oct 12 10:00:00 2026 - Mon Oct 12 12:00:00 2026  (02:00)";
const LOGIN_OPEN: &str =
    "bob      pts/1        10.0.0.2         Tue Oct 13 09:00:00 2026   still logged in";

#[test]
fn login_line_fields() {
    assert_eq!(
        split_fields(LOGIN_CLOSED),
        vec![
            "alice",
            "pts/0",
            "192.168.1.10",
            "Mon Oct 12 10:00:00 2026",
            "Mon Oct 12 12:00:00 2026",
            "(02:00)"
        ]
    );
    assert_eq!(split_fields("a  - b"), vec!["a", "- b"]);
    assert_eq!(split_fields("a - b"), vec!["a", "b"]);
    assert_eq!(split_fields("a\u{a0}\tb  "), vec!["a", "b", ""]);
}

#[test]
fn login_entries() {
    let e = parse_login(LOGIN_CLOSED).unwrap();
    assert_eq!(e.username, "alice");
    assert_eq!(e.location, "192.168.1.10");
    assert_eq!(e.start_time, "Mon Oct 12 10:00:00 2026");
    assert_eq!(e.end_time, "Mon Oct 12 12:00:00 2026");
    let e = parse_login(LOGIN_OPEN).unwrap();
    assert_eq!(e.end_time, "still logged in");
    assert!(parse_login("").is_none());
    assert!(parse_login("wtmp begins Mon Oct 12 2026").is_none());
    let output = format!("{}\n{}\n\nwtmp begins Mon Oct  5 2026\n", LOGIN_CLOSED, LOGIN_OPEN);
    let all = parse_last_output(&output);
    assert_eq!(all.len(), 2);
    assert_eq!(all[1].username, "bob");
    let crlf = format!("{}\r\n{}\r\n", LOGIN_CLOSED, LOGIN_OPEN);
    let all = parse_last_output(&crlf);
    assert_eq!(all.len(), 2);
    assert_eq!(all[0].end_time, "Mon Oct 12 12:00:00 2026");
    assert_eq!(all[1].end_time, "still logged in");
}

#[test]
fn login_report_rows() {
    assert_eq!(end_time_colour("still logged in"), Some(LocalColor::Green));
    assert_eq!(end_time_colour("gone"), None);
    let entries = parse_last_output(&format!("{}\n{}\n", LOGIN_CLOSED, LOGIN_OPEN));
    let lines = login_report(&entries, "");
    assert_eq!(lines.len(), 4);
    assert_eq!(lines[0], "Logins:");
    assert_eq!(
        lines[1],
        "Username  Location      Start                     End                     "
    );
    assert_eq!(
        strip(&lines[3]),
        "bob       10.0.0.2      Tue Oct 13 09:00:00 2026  still logged in         "
    );
}

#[test]
fn last_arguments() {
    assert_eq!(
        user_last_logins_args("alice", Some(5), Some("yesterday")),
        vec!["--ip", "--time-format=full", "--limit", "5", "--since", "yesterday", "alice"]
    );
    assert_eq!(
        user_last_logins_args("bob", None, None),
        vec!["--ip", "--time-format=full", "bob"]
    );
}

#[test]
fn sensor_lines() {
    assert_eq!(
        strip(&single_sensor("cpu", "45", LocalColor::Green, 6)),
        "   cpu...: 45°C"
    );
    let sensors = vec![
        SensorReading {
            label: "core 0".to_string(),
            reading: "40".to_string(),
            colour: LocalColor::Green,
        },
        SensorReading {
            label: "nvme".to_string(),
            reading: "35.5".to_string(),
            colour: LocalColor::Green,
        },
    ];
    assert_eq!(
        strip(&temperature(&sensors)),
        "   core 0...: 40°C\n   nvme.....: 35.5°C"
    );
    assert_eq!(temperature(&vec![]), "");
}
