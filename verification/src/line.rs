//! The lines of a report and their text.

use vstd::prelude::*;
use vstd::string::StringExecFns;

use crate::numeral::{decimal, write_decimal};

verus! {

/// One line of a report.
#[derive(Debug, Clone, Copy, PartialEq, Eq, Structural)]
pub enum Line {
    /// A roll of a single group: `<value>`.
    Value(u32),
    /// The heading of a group, by its number of faces: `d<sides>:`.
    Header(u32),
    /// A roll under a heading: ` <value>`.
    Entry(u32),
    /// The sum of the rolls of one group: `d<sides> subtotal: <sum>`.
    Subtotal { sides: u32, sum: u64 },
    /// The sum of all rolls: `total: <sum>`.
    Total(u128),
}

impl Line {
    /// The text of the line, without a line end.
    pub open spec fn text(self) -> Seq<char> {
        match self {
            Line::Value(value) => decimal(value as nat),
            Line::Header(sides) => "d"@ + decimal(sides as nat) + ":"@,
            Line::Entry(value) => " "@ + decimal(value as nat),
            Line::Subtotal { sides, sum } => "d"@ + decimal(sides as nat) + " subtotal: "@
                + decimal(sum as nat),
            Line::Total(sum) => "total: "@ + decimal(sum as nat),
        }
    }

    /// Writes the line out as text, without a line end.
    pub fn render(&self) -> (s: String)
        ensures
            s@ == self.text(),
    {
        let mut s = String::new();
        match *self {
            Line::Value(value) => {
                write_decimal(&mut s, value as u128);
            },
            Line::Header(sides) => {
                s.append("d");
                write_decimal(&mut s, sides as u128);
                s.append(":");
            },
            Line::Entry(value) => {
                s.append(" ");
                write_decimal(&mut s, value as u128);
            },
            Line::Subtotal { sides, sum } => {
                s.append("d");
                write_decimal(&mut s, sides as u128);
                s.append(" subtotal: ");
                write_decimal(&mut s, sum as u128);
            },
            Line::Total(sum) => {
                s.append("total: ");
                write_decimal(&mut s, sum);
            },
        }
        s
    }
}

/// Writes each line out as text.
pub fn render_all(lines: &Vec<Line>) -> (texts: Vec<String>)
    ensures
        texts.len() == lines.len(),
        forall|i: int| 0 <= i < lines.len() ==> (#[trigger] texts@[i])@ == lines@[i].text(),
{
    let mut texts: Vec<String> = Vec::new();
    let mut i: usize = 0;
    while i < lines.len()
        invariant
            i <= lines.len(),
            texts.len() == i,
            forall|j: int| 0 <= j < i ==> (#[trigger] texts@[j])@ == lines@[j].text(),
        decreases lines.len() - i,
    {
        texts.push(lines[i].render());
        i = i + 1;
    }
    texts
}

} // verus!
