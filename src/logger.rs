//! Log levels and how each is tagged on the terminal.
use vstd::prelude::*;

verus! {

/// The severity of a log line, most severe first.
#[derive(PartialEq, Eq, Structural, Clone, Copy, Debug)]
pub enum Level {
    Error,
    Warn,
    Info,
    Debug,
    Trace,
}

/// The terminal logger: every line is shown, starting with its level's tag.
pub struct Logger;

/// The tag of a level.
pub open spec fn tag_of(level: Level) -> Seq<char> {
    match level {
        Level::Error => "ERR:"@,
        Level::Warn => "WARN:"@,
        Level::Info => "INFO:"@,
        Level::Debug => "DEBUG:"@,
        Level::Trace => "TRACE:"@,
    }
}

/// The most verbose level shown: everything when verbose, else up to `Info`.
pub open spec fn max_level_of(verbose: bool) -> Level {
    if verbose {
        Level::Trace
    } else {
        Level::Info
    }
}

impl Logger {
    /// Whether lines of `level` are shown: the logger itself shows all, the
    /// maximum level filters them.
    pub fn enabled(&self, level: Level) -> (r: bool)
        ensures
            r,
    {
        true
    }

    /// The tag that starts a line of `level`.
    pub fn tag(level: Level) -> (r: &'static str)
        ensures
            r@ == tag_of(level),
    {
        match level {
            Level::Error => "ERR:",
            Level::Warn => "WARN:",
            Level::Info => "INFO:",
            Level::Debug => "DEBUG:",
            Level::Trace => "TRACE:",
        }
    }
}

/// Relies on `log::set_max_level`: lines above `level` are dropped from now on.
#[verifier::external_body]
fn set_max_level(level: Level) {
    log::set_max_level(match level {
        Level::Error => log::LevelFilter::Error,
        Level::Warn => log::LevelFilter::Warn,
        Level::Info => log::LevelFilter::Info,
        Level::Debug => log::LevelFilter::Debug,
        Level::Trace => log::LevelFilter::Trace,
    });
}

/// Sets the most verbose level shown, `Trace` when verbose and `Info`
/// otherwise, and returns it. The logger itself is installed by the program.
pub fn init_logger(verbose: bool) -> (r: Level)
    ensures
        r == max_level_of(verbose),
{
    let level = if verbose {
        Level::Trace
    } else {
        Level::Info
    };
    set_max_level(level);
    level
}

} // verus!
