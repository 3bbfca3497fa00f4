//! The general section: operating system, kernel, uptime, load, memory and CPU.

use crate::config::{ConditionalColour, LocalColor};
use crate::style::{paint, painted, plain};
use crate::util::colour_for;
use crate::text::{byte_size, byte_size_text, decimal, pad_to, pad_with, u64_text};
use crate::util::select_colour_number;
use vstd::prelude::*;

verus! {

/// Uptime as text: whole weeks, then the days, hours, minutes and seconds left over.
pub open spec fn uptime_text(secs: u64) -> Seq<char> {
    let s = secs as nat;
    decimal(s / 604800) + " weeks, "@ + decimal((s / 86400) % 7) + " days, "@ + decimal(
        (s / 3600) % 24,
    ) + " hours, "@ + decimal((s / 60) % 60) + " minutes, "@ + decimal(s % 60) + " seconds"@
}

/// Formats an uptime given in seconds.
pub fn uptime(secs: u64) -> (r: String)
    ensures
        r@ == uptime_text(secs),
{
    let seconds = secs % 60;
    let minutes = (secs / 60) % 60;
    let hours = (secs / (60 * 60)) % 24;
    let days = (secs / (24 * 60 * 60)) % 7;
    let weeks = secs / (24 * 60 * 60 * 7);
    let mut r = u64_text(weeks);
    r.append(" weeks, ");
    r.append(u64_text(days).as_str());
    r.append(" days, ");
    r.append(u64_text(hours).as_str());
    r.append(" hours, ");
    r.append(u64_text(minutes).as_str());
    r.append(" minutes, ");
    r.append(u64_text(seconds).as_str());
    r.append(" seconds");
    r
}

/// `r` shows `before`, then `value` painted in `colour`, then `after`.
pub open spec fn painted_between(
    r: Seq<char>,
    before: Seq<char>,
    value: Seq<char>,
    colour: LocalColor,
    after: Seq<char>,
) -> bool {
    exists|p: Seq<char>| painted(p, value, colour) && r == before + p + after
}

/// The CPU line: the brand, then the frequency in MHz painted in the colour
/// its bands select.
pub fn cpu(brand: &str, frequency: u64, cfg: &ConditionalColour<u64>) -> (r: String)
    ensures
        painted_between(
            r@,
            brand@ + " - "@,
            decimal(frequency as nat),
            colour_for(frequency, cfg.default_colour, cfg.levels@),
            " MHz"@,
        ),
{
    let colour = select_colour_number(frequency, cfg);
    let freq = u64_text(frequency);
    assert(plain(freq@)) by {
        lemma_decimal_plain(frequency as nat);
    }
    let painted = paint(freq.as_str(), colour);
    let mut r = brand.to_owned();
    r.append(" - ");
    r.append(painted.as_str());
    r.append(" MHz");
    assert(r@ =~= brand@ + " - "@ + painted@ + " MHz"@);
    r
}

/// Decimal digits hold no escape character.
pub proof fn lemma_decimal_plain(n: nat)
    ensures
        plain(decimal(n)),
    decreases n,
{
    if n >= 10 {
        lemma_decimal_plain(n / 10);
    }
}

/// The memory line, from byte counts: used (in `used_colour`), available
/// and total, each as bytesize shows it.
pub fn memory(used: u64, available: u64, total: u64, used_colour: LocalColor) -> (r: String)
    ensures
        painted_between(
            r@,
            Seq::empty(),
            byte_size_text(used),
            used_colour,
            " used, "@ + byte_size_text(available) + " available, "@ + byte_size_text(total)
                + " total"@,
        ),
{
    let used_text = byte_size(used);
    assert(plain(used_text@));
    let painted = paint(used_text.as_str(), used_colour);
    let mut r = painted;
    r.append(" used, ");
    r.append(byte_size(available).as_str());
    r.append(" available, ");
    r.append(byte_size(total).as_str());
    r.append(" total");
    proof {
        let tail = " used, "@ + byte_size_text(available) + " available, "@ + byte_size_text(total)
            + " total"@;
        assert(r@ =~= Seq::<char>::empty() + painted@ + tail);
    }
    r
}

/// The load line: the one, five and fifteen minute load averages as given,
/// each painted in its own colour.
pub fn load(
    one: &str,
    one_colour: LocalColor,
    five: &str,
    five_colour: LocalColor,
    fifteen: &str,
    fifteen_colour: LocalColor,
) -> (r: String)
    ensures
        plain(one@) && plain(five@) && plain(fifteen@) ==> exists|a: Seq<char>, b: Seq<char>, c: Seq<char>|
            {
                &&& painted(a, one@, one_colour)
                &&& painted(b, five@, five_colour)
                &&& painted(c, fifteen@, fifteen_colour)
                &&& r@ == a + " (1m), "@ + b + " (5m), "@ + c + " (15m)"@
            },
{
    let a = paint(one, one_colour);
    let b = paint(five, five_colour);
    let c = paint(fifteen, fifteen_colour);
    let mut r = a.as_str().to_owned();
    r.append(" (1m), ");
    r.append(b.as_str());
    r.append(" (5m), ");
    r.append(c.as_str());
    r.append(" (15m)");
    r
}

/// One line of the section: indented label padded with dots to nine
/// characters, a colon and the value.
pub open spec fn info_line(label: Seq<char>, value: Seq<char>) -> Seq<char> {
    "    "@ + pad_to(label, 9, '.') + ": "@ + value + "\n"@
}

/// A value, or "N/A" when it is unknown.
pub open spec fn or_unknown(v: Option<Seq<char>>) -> Seq<char> {
    match v {
        Some(s) => s,
        None => "N/A"@,
    }
}

/// The text of the general section.
pub open spec fn general_info_text(
    os: Option<Seq<char>>,
    kernel: Option<Seq<char>>,
    uptime: Seq<char>,
    load: Seq<char>,
    memory: Seq<char>,
    cpu: Seq<char>,
) -> Seq<char> {
    "General:\n"@ + info_line("OS"@, or_unknown(os)) + info_line("Kernel"@, or_unknown(kernel))
        + "\n"@ + info_line("Uptime"@, uptime) + info_line("Load"@, load) + "\n"@ + info_line(
        "Memory"@,
        memory,
    ) + info_line("CPU"@, cpu) + "    "@
}

fn append_info_line(r: &mut String, label: &str, value: &str)
    ensures
        final(r)@ == old(r)@ + info_line(label@, value@),
{
    let dot = ".";
    proof {
        reveal_strlit(".");
    }
    r.append("    ");
    r.append(pad_with(label, 9, dot).as_str());
    r.append(": ");
    r.append(value);
    r.append("\n");
    proof {
        assert(final(r)@ =~= old(r)@ + info_line(label@, value@));
    }
}

/// Lays out the general section from its values; an unknown operating
/// system or kernel version shows as "N/A".
pub fn general_info(
    os: Option<&str>,
    kernel: Option<&str>,
    uptime: &str,
    load: &str,
    memory: &str,
    cpu: &str,
) -> (r: String)
    ensures
        r@ == general_info_text(
            match os {
                Some(s) => Some(s@),
                None => None,
            },
            match kernel {
                Some(s) => Some(s@),
                None => None,
            },
            uptime@,
            load@,
            memory@,
            cpu@,
        ),
{
    let mut r = "General:\n".to_owned();
    let os_text = match os {
        Some(s) => s,
        None => "N/A",
    };
    let kernel_text = match kernel {
        Some(s) => s,
        None => "N/A",
    };
    append_info_line(&mut r, "OS", os_text);
    append_info_line(&mut r, "Kernel", kernel_text);
    r.append("\n");
    append_info_line(&mut r, "Uptime", uptime);
    append_info_line(&mut r, "Load", load);
    r.append("\n");
    append_info_line(&mut r, "Memory", memory);
    append_info_line(&mut r, "CPU", cpu);
    r.append("    ");
    r
}

} // verus!
