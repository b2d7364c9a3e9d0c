//! Colours and rules for the lines that the application prints.
//!
//! Nothing is printed here: the functions build the text of a line, and the
//! application prints it.

use vstd::prelude::*;
use vstd::string::{StrSliceExecFns, StringExecFns};

verus! {

/// The escape sequence that ends a colour.
pub const RESET_COLOR: &'static str = "\x1b[0m";

/// A colour of the terminal.
#[derive(Clone, Copy, Debug, PartialEq, Eq, Structural)]
pub enum Color {
    Black,
    Red,
    Green,
    Yellow,
    Blue,
    Magenta,
    Cyan,
    White,
    BrightBlack,
    BrightRed,
    BrightGreen,
    BrightYellow,
    BrightBlue,
    BrightMagenta,
    BrightCyan,
    BrightWhite,
    /// Not a colour: back to the terminal's own.
    Reset,
}

impl Color {
    /// The escape sequence that starts the colour.
    pub open spec fn ansi_code(self) -> Seq<char> {
        match self {
            Color::Black => "\x1b[30m"@,
            Color::Red => "\x1b[31m"@,
            Color::Green => "\x1b[32m"@,
            Color::Yellow => "\x1b[33m"@,
            Color::Blue => "\x1b[34m"@,
            Color::Magenta => "\x1b[35m"@,
            Color::Cyan => "\x1b[36m"@,
            Color::White => "\x1b[37m"@,
            Color::BrightBlack => "\x1b[90m"@,
            Color::BrightRed => "\x1b[91m"@,
            Color::BrightGreen => "\x1b[92m"@,
            Color::BrightYellow => "\x1b[93m"@,
            Color::BrightBlue => "\x1b[94m"@,
            Color::BrightMagenta => "\x1b[95m"@,
            Color::BrightCyan => "\x1b[96m"@,
            Color::BrightWhite => "\x1b[97m"@,
            Color::Reset => "\x1b[0m"@,
        }
    }

    /// `msg` in the colour: the colour is switched on before it and off
    /// after it.
    pub open spec fn painted(self, msg: Seq<char>) -> Seq<char> {
        self.ansi_code() + msg + "\x1b[0m"@
    }

    /// The escape sequence that starts the colour.
    pub fn to_ansi_code(&self) -> (code: &'static str)
        ensures
            code@ == self.ansi_code(),
    {
        match self {
            Color::Black => "\x1b[30m",
            Color::Red => "\x1b[31m",
            Color::Green => "\x1b[32m",
            Color::Yellow => "\x1b[33m",
            Color::Blue => "\x1b[34m",
            Color::Magenta => "\x1b[35m",
            Color::Cyan => "\x1b[36m",
            Color::White => "\x1b[37m",
            Color::BrightBlack => "\x1b[90m",
            Color::BrightRed => "\x1b[91m",
            Color::BrightGreen => "\x1b[92m",
            Color::BrightYellow => "\x1b[93m",
            Color::BrightBlue => "\x1b[94m",
            Color::BrightMagenta => "\x1b[95m",
            Color::BrightCyan => "\x1b[96m",
            Color::BrightWhite => "\x1b[97m",
            Color::Reset => "\x1b[0m",
        }
    }

    /// `msg` in the colour.
    pub fn paint(&self, msg: &str) -> (text: String)
        ensures
            text@ == self.painted(msg@),
    {
        let mut text = String::from_str(self.to_ansi_code());
        text.append(msg);
        text.append(RESET_COLOR);
        text
    }
}

/// `n` dashes.
pub open spec fn dashes(n: nat) -> Seq<char> {
    Seq::new(n, |i: int| '-')
}

/// `msg` in the middle of a rule of dashes that is `width` characters long:
/// of an odd number of dashes the right side gets one more. A message that
/// fills the width, or more, stands alone.
pub open spec fn centered(msg: Seq<char>, width: nat) -> Seq<char> {
    if msg.len() >= width {
        msg
    } else {
        let fill = (width - msg.len()) as nat;
        dashes(fill / 2) + msg + dashes((fill - fill / 2) as nat)
    }
}

/// Appends `n` dashes to `text`.
fn push_dashes(text: &mut String, n: usize)
    ensures
        final(text)@ == old(text)@ + dashes(n as nat),
{
    let mut i: usize = 0;
    while i < n
        invariant
            i <= n,
            text@ == old(text)@ + dashes(i as nat),
        decreases n - i,
    {
        text.append("-");
        proof {
            reveal_strlit("-");
        }
        assert(text@ =~= old(text)@ + dashes((i + 1) as nat));
        i += 1;
    }
}

/// The headline of a section of the log: `msg` in the middle of a rule of
/// dashes of `line_length` characters, in the colour `color`.
pub fn log_line_header(msg: &str, color: Color, line_length: usize) -> (line: String)
    ensures
        line@ == color.painted(centered(msg@, line_length as nat)),
{
    let n = msg.unicode_len();
    let mut header = String::new();
    if n >= line_length {
        header.append(msg);
    } else {
        let fill = line_length - n;
        push_dashes(&mut header, fill / 2);
        header.append(msg);
        push_dashes(&mut header, fill - fill / 2);
    }
    color.paint(header.as_str())
}

/// The rule that ends a section of the log: `line_length` dashes in the
/// colour `color`.
pub fn log_line(color: Color, line_length: usize) -> (line: String)
    ensures
        line@ == color.painted(dashes(line_length as nat)),
{
    let mut rule = String::new();
    push_dashes(&mut rule, line_length);
    color.paint(rule.as_str())
}

} // verus!
