//! Lines of the log.

use vstd::prelude::*;

use crate::text;

verus! {

/// Weight of a message.
#[derive(Debug, Clone, Copy, PartialEq, Eq, Structural)]
pub enum Level {
    Error,
    Warn,
    Info,
    Debug,
    Trace,
}

/// The name of a level, five characters wide.
pub open spec fn level_name(level: Level) -> Seq<char> {
    match level {
        Level::Error => "ERROR"@,
        Level::Warn => "WARN "@,
        Level::Info => "INFO "@,
        Level::Debug => "DEBUG"@,
        Level::Trace => "TRACE"@,
    }
}

/// A line of the log: `[INFO ] 4.312 text`, with the time since power-up in
/// seconds.
pub open spec fn log_line(level: Level, millis: u64, message: Seq<char>) -> Seq<char> {
    "["@ + level_name(level) + "] "@ + text::decimal((millis / 1000) as nat) + "."@ + text::padded(
        (millis % 1000) as nat,
        3,
    ) + " "@ + message + "\r\n"@
}

/// Writes a line of the log.
pub fn style(level: Level, millis: u64, message: &str) -> (r: String)
    ensures
        r@ == log_line(level, millis, message@),
{
    let name: &str = match level {
        Level::Error => "ERROR",
        Level::Warn => "WARN ",
        Level::Info => "INFO ",
        Level::Debug => "DEBUG",
        Level::Trace => "TRACE",
    };
    let mut line = String::from_str("[");
    line.append(name);
    line.append("] ");
    text::append_decimal(&mut line, millis / 1000);
    line.append(".");
    text::append_padded(&mut line, millis % 1000, 3);
    line.append(" ");
    line.append(message);
    line.append("\r\n");
    line
}

/// Each level has its name, and all names are five characters wide.
pub proof fn law_level_names(level: Level)
    ensures
        level_name(level).len() == 5,
        level_name(level) == seq!['E', 'R', 'R', 'O', 'R'] <==> level == Level::Error,
        level_name(level) == seq!['W', 'A', 'R', 'N', ' '] <==> level == Level::Warn,
        level_name(level) == seq!['I', 'N', 'F', 'O', ' '] <==> level == Level::Info,
        level_name(level) == seq!['D', 'E', 'B', 'U', 'G'] <==> level == Level::Debug,
        level_name(level) == seq!['T', 'R', 'A', 'C', 'E'] <==> level == Level::Trace,
{
    reveal_strlit("ERROR");
    reveal_strlit("WARN ");
    reveal_strlit("INFO ");
    reveal_strlit("DEBUG");
    reveal_strlit("TRACE");
    let error = seq!['E', 'R', 'R', 'O', 'R'];
    let warn = seq!['W', 'A', 'R', 'N', ' '];
    let info = seq!['I', 'N', 'F', 'O', ' '];
    let debug = seq!['D', 'E', 'B', 'U', 'G'];
    let trace = seq!['T', 'R', 'A', 'C', 'E'];
    assert("ERROR"@ =~= error);
    assert("WARN "@ =~= warn);
    assert("INFO "@ =~= info);
    assert("DEBUG"@ =~= debug);
    assert("TRACE"@ =~= trace);
    assert(error[0] == 'E' && warn[0] == 'W' && info[0] == 'I' && debug[0] == 'D' && trace[0]
        == 'T');
}

/// A line holds the level in brackets, the seconds, a point and just three
/// digits for the milliseconds, the message, and a line break.
pub proof fn law_log_line(
    level: Level,
    seconds: nat,
    tenths: nat,
    hundredths: nat,
    thousandths: nat,
    millis: u64,
    message: Seq<char>,
)
    requires
        tenths < 10,
        hundredths < 10,
        thousandths < 10,
        millis == 1000 * seconds + 100 * tenths + 10 * hundredths + thousandths,
    ensures
        log_line(level, millis, message) == seq!['['] + level_name(level) + seq![']', ' ']
            + text::decimal(seconds) + seq!['.'] + text::decimal(tenths) + text::decimal(hundredths)
            + text::decimal(thousandths) + seq![' '] + message + seq!['\r', '\n'],
{
    reveal_strlit("[");
    reveal_strlit("] ");
    reveal_strlit(".");
    reveal_strlit(" ");
    reveal_strlit("\r\n");
    assert("["@ =~= seq!['[']);
    assert("] "@ =~= seq![']', ' ']);
    assert("."@ =~= seq!['.']);
    assert(" "@ =~= seq![' ']);
    assert("\r\n"@ =~= seq!['\r', '\n']);
    let part = (100 * tenths + 10 * hundredths + thousandths) as nat;
    assert(millis / 1000 == seconds && millis % 1000 == part);
    let digits = text::decimal(tenths) + text::decimal(hundredths) + text::decimal(thousandths);
    assert(text::padded(part, 3) =~= digits) by {
        reveal_with_fuel(text::decimal, 4);
        text::law_padding(part, 3);
        assert(part / 10 == 10 * tenths + hundredths);
        assert(part % 10 == thousandths);
        assert((10 * tenths + hundredths) / 10 == tenths);
        assert((10 * tenths + hundredths) % 10 == hundredths);
    }
    assert(log_line(level, millis, message) =~= seq!['['] + level_name(level) + seq![']', ' ']
        + text::decimal(seconds) + seq!['.'] + text::decimal(tenths) + text::decimal(hundredths)
        + text::decimal(thousandths) + seq![' '] + message + seq!['\r', '\n']);
}

} // verus!
