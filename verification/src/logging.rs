//! Where the log goes.

use vstd::prelude::*;

verus! {

/// The layout of a line of the log: time with zone, level and module in
/// brackets, then the message.
pub const PATTERN: &'static str = "[{d(%Y-%m-%dT%H:%M:%S):0<19}{d(%:z)} {l} {M}] - {m}{n}";

/// The name of the appender that writes to the log file.
pub const FILE: &'static str = "file";

/// The name of the appender that writes to standard output.
pub const STDOUT: &'static str = "stdout";

/// The appenders that the logger writes to: the log file always, and
/// standard output as well if `log_to_stdout` says so.
pub fn appenders(log_to_stdout: bool) -> (names: Vec<&'static str>)
    ensures
        names@ == if log_to_stdout {
            seq![FILE, STDOUT]
        } else {
            seq![FILE]
        },
{
    let mut names: Vec<&'static str> = Vec::new();
    names.push(FILE);
    if log_to_stdout {
        names.push(STDOUT);
    }
    assert(names@ =~= if log_to_stdout {
        seq![FILE, STDOUT]
    } else {
        seq![FILE]
    });
    names
}

} // verus!
