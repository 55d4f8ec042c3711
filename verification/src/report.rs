//! The text of the final report: a blank line, then one line for each open
//! port.

use vstd::prelude::*;
use vstd::string::*;

verus! {

/// The character that writes the digit `d`.
pub open spec fn digit_char(d: nat) -> char {
    if d == 0 {
        '0'
    } else if d == 1 {
        '1'
    } else if d == 2 {
        '2'
    } else if d == 3 {
        '3'
    } else if d == 4 {
        '4'
    } else if d == 5 {
        '5'
    } else if d == 6 {
        '6'
    } else if d == 7 {
        '7'
    } else if d == 8 {
        '8'
    } else {
        '9'
    }
}

/// The decimal numeral of `n`: its digits, most significant first, with no
/// leading zero.
pub open spec fn decimal(n: nat) -> Seq<char>
    decreases n,
{
    if n < 10 {
        seq![digit_char(n)]
    } else {
        decimal(n / 10).push(digit_char(n % 10))
    }
}

/// The line that reports `port` as open.
pub open spec fn port_line(port: u16) -> Seq<char> {
    decimal(port as nat) + " is open"@
}

/// The whole report on `ports`: an empty line, then the line of each port in
/// the order given.
pub open spec fn report_text(ports: Seq<u16>) -> Seq<Seq<char>> {
    seq![Seq::<char>::empty()] + Seq::new(ports.len(), |i: int| port_line(ports[i]))
}

/// The one-character text of a digit.
fn digit_text(d: u16) -> (text: &'static str)
    requires
        d < 10,
    ensures
        text@ == seq![digit_char(d as nat)],
{
    proof {
        reveal_strlit("0");
        reveal_strlit("1");
        reveal_strlit("2");
        reveal_strlit("3");
        reveal_strlit("4");
        reveal_strlit("5");
        reveal_strlit("6");
        reveal_strlit("7");
        reveal_strlit("8");
        reveal_strlit("9");
    }
    let text = match d {
        0 => "0",
        1 => "1",
        2 => "2",
        3 => "3",
        4 => "4",
        5 => "5",
        6 => "6",
        7 => "7",
        8 => "8",
        _ => "9",
    };
    assert(text@ =~= seq![digit_char(d as nat)]);
    text
}

/// Writes the decimal numeral of `n` at the end of `text`.
fn append_decimal(text: &mut String, n: u16)
    ensures
        final(text)@ == old(text)@ + decimal(n as nat),
    decreases n,
{
    if n >= 10 {
        append_decimal(text, n / 10);
    }
    text.append(digit_text(n % 10));
    assert(text@ =~= old(text)@ + decimal(n as nat));
}

/// The line that reports `port` as open: its number, then ` is open`.
pub fn report_line(port: u16) -> (line: String)
    ensures
        line@ == port_line(port),
{
    let mut line = String::new();
    append_decimal(&mut line, port);
    line.append(" is open");
    assert(line@ =~= port_line(port));
    line
}

/// The report on `ports`, line by line: one empty line, then a line for each
/// port, in the order in which `ports` holds them.
pub fn report_lines(ports: &Vec<u16>) -> (lines: Vec<String>)
    ensures
        lines@.len() == ports@.len() + 1,
        forall|i: int|
            0 <= i < lines@.len() ==> (#[trigger] lines@[i])@ == report_text(ports@)[i],
{
    let mut lines: Vec<String> = Vec::new();
    lines.push(String::new());
    let mut i: usize = 0;
    while i < ports.len()
        invariant
            i <= ports.len(),
            lines@.len() == i + 1,
            forall|k: int|
                0 <= k < lines@.len() ==> (#[trigger] lines@[k])@ == report_text(ports@)[k],
        decreases ports.len() - i,
    {
        lines.push(report_line(ports[i]));
        i = i + 1;
    }
    lines
}

} // verus!
