//! The temperatures section: one dotted line per sensor.

use crate::config::LocalColor;
use crate::style::{paint, painted};
use crate::text::{join, join_with, pad_to, pad_with, text_width, views};
use vstd::prelude::*;

verus! {

/// One sensor: its label, its reading as text and the reading's colour.
pub struct SensorReading {
    pub label: String,
    pub reading: String,
    pub colour: LocalColor,
}

/// `r` is a sensor line: three spaces, the label padded with dots to
/// `align_length`, a colon, the reading painted in `colour` and the unit.
pub open spec fn sensor_line(
    r: Seq<char>,
    label: Seq<char>,
    reading: Seq<char>,
    colour: LocalColor,
    align_length: usize,
) -> bool {
    exists|p: Seq<char>|
        {
            &&& painted(p, reading, colour)
            &&& r == "   "@ + pad_to(label, align_length as int, '.') + ": "@ + p + "°C"@
        }
}

/// The line of one sensor.
pub fn single_sensor(label: &str, reading: &str, colour: LocalColor, align_length: usize) -> (r:
    String)
    ensures
        crate::style::plain(reading@) ==> sensor_line(r@, label@, reading@, colour, align_length),
{
    let dot = ".";
    proof {
        reveal_strlit(".");
    }
    let coloured = paint(reading, colour);
    let mut r = "   ".to_owned();
    r.append(pad_with(label, align_length, dot).as_str());
    r.append(": ");
    r.append(coloured.as_str());
    r.append("°C");
    proof {
        assert(r@ =~= "   "@ + pad_to(label@, align_length as int, '.') + ": "@ + coloured@
            + "°C"@);
    }
    r
}

/// The longest label's length plus three, capped at the largest `usize`.
pub open spec fn align_of(sensors: Seq<SensorReading>) -> int
    decreases sensors.len(),
{
    if sensors.len() == 0 {
        3
    } else {
        let rest = align_of(sensors.drop_last());
        let this = sensors.last().label@.len() as int + 3;
        let m = if this > rest {
            this
        } else {
            rest
        };
        if m > usize::MAX {
            usize::MAX as int
        } else {
            m
        }
    }
}

/// The temperatures section: one line per sensor, labels dotted out to three
/// past the longest label, lines separated by newlines.
pub fn temperature(sensors: &Vec<SensorReading>) -> (r: String)
    ensures
        exists|lines: Seq<Seq<char>>|
            {
                &&& lines.len() == sensors@.len()
                &&& forall|i: int|
                    0 <= i < sensors@.len() ==> (crate::style::plain(
                        (#[trigger] sensors@[i]).reading@,
                    ) ==> sensor_line(
                        lines[i],
                        sensors@[i].label@,
                        sensors@[i].reading@,
                        sensors@[i].colour,
                        align_of(sensors@) as usize,
                    ))
                &&& r@ == join(lines, seq!['\n'])
            },
{
    let mut align: usize = 3;
    let mut i: usize = 0;
    while i < sensors.len()
        invariant
            i <= sensors@.len(),
            align as int == align_of(sensors@.take(i as int)),
        decreases sensors@.len() - i,
    {
        assert(sensors@.take(i as int + 1).drop_last() =~= sensors@.take(i as int));
        let w = text_width(sensors[i].label.as_str());
        if w > usize::MAX - 3 {
            align = usize::MAX;
        } else if w + 3 > align {
            align = w + 3;
        }
        i = i + 1;
    }
    assert(sensors@.take(sensors@.len() as int) =~= sensors@);
    let mut lines: Vec<String> = Vec::new();
    let mut i: usize = 0;
    while i < sensors.len()
        invariant
            i <= sensors@.len(),
            align as int == align_of(sensors@),
            lines@.len() == i,
            forall|j: int|
                0 <= j < i ==> (crate::style::plain((#[trigger] sensors@[j]).reading@)
                    ==> sensor_line(
                    lines@[j]@,
                    sensors@[j].label@,
                    sensors@[j].reading@,
                    sensors@[j].colour,
                    align,
                )),
        decreases sensors@.len() - i,
    {
        let s = &sensors[i];
        lines.push(single_sensor(s.label.as_str(), s.reading.as_str(), s.colour, align));
        i = i + 1;
    }
    let nl = "\n";
    proof {
        reveal_strlit("\n");
        assert(nl@ =~= seq!['\n']);
    }
    let r = join_with(&lines, nl);
    proof {
        let ls = views(lines@);
        assert forall|j: int|
            0 <= j < sensors@.len() && crate::style::plain(
                (#[trigger] sensors@[j]).reading@,
            ) implies sensor_line(
            ls[j],
            sensors@[j].label@,
            sensors@[j].reading@,
            sensors@[j].colour,
            align_of(sensors@) as usize,
        ) by {
            assert(ls[j] == lines@[j]@);
        }
    }
    r
}

} // verus!
