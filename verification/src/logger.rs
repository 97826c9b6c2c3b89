//! Leveled logging, as decisions: a [`Logger`] handle holds the current
//! level, and each call computes whether a line is emitted, where it goes,
//! and its exact text. Printing the returned message is the caller's
//! business.

use vstd::prelude::*;

verus! {

/// Log debug messages in addition to infos, warnings and errors.
pub const LOGLEVEL_DEBUG: u8 = 4;

/// Log infos, warnings and errors.
pub const LOGLEVEL_INFO: u8 = 3;

/// Log warnings and errors.
pub const LOGLEVEL_WARN: u8 = 2;

/// Only log errors.
pub const LOGLEVEL_ERROR: u8 = 1;

/// The prefix printed before a message of the given level.
pub open spec fn spec_prefix(level: u8) -> Seq<char> {
    match level {
        1u8 => "[ Error ] "@,
        2u8 => "[Warning] "@,
        3u8 => "[ Info  ] "@,
        4u8 => "[ Debug ] "@,
        _ => ""@,
    }
}

/// Returns the prefix printed before a message of the given level.
pub fn get_prefix(level: u8) -> (r: &'static str)
    ensures
        r@ == spec_prefix(level),
{
    match level {
        1u8 => "[ Error ] ",
        2u8 => "[Warning] ",
        3u8 => "[ Info  ] ",
        4u8 => "[ Debug ] ",
        _ => "",
    }
}

/// What a logging call decided to print: error-level messages go to the
/// error stream, everything else to the regular output.
#[derive(Debug)]
pub struct LogMessage {
    /// Whether the text belongs on the error stream.
    pub to_stderr: bool,
    /// The exact text to print.
    pub text: String,
}

/// The message a logging call emits, if any: a message is emitted when the
/// level is one of the four known levels and the configured level admits
/// it; its text is the optional prefix, the message, and an optional
/// newline.
pub open spec fn spec_log_output(
    current: u8,
    prefixed: bool,
    ln: bool,
    level: u8,
    message: Seq<char>,
) -> Option<(bool, Seq<char>)> {
    if 1 <= level <= 4 && current >= level {
        Some(
            (
                level == 1,
                (if prefixed {
                    spec_prefix(level)
                } else {
                    Seq::<char>::empty()
                }) + message + (if ln {
                    "\n"@
                } else {
                    Seq::<char>::empty()
                }),
            ),
        )
    } else {
        None
    }
}

/// A logging handle: holds the level below which messages are dropped.
#[derive(Debug)]
pub struct Logger {
    /// The current log level; messages above it are dropped.
    pub level: u8,
}

impl Logger {
    /// Creates a logger that only emits errors.
    pub fn new() -> (r: Logger)
        ensures
            r.level == LOGLEVEL_ERROR,
    {
        Logger { level: LOGLEVEL_ERROR }
    }

    /// Sets the log level.
    pub fn set_level(&mut self, level: u8)
        ensures
            final(self).level == level,
    {
        self.level = level;
    }

    /// Returns the log level.
    pub fn get_level(&self) -> (r: u8)
        ensures
            r == self.level,
    {
        self.level
    }

    /// The message for a prefixed line of the given level, if the level
    /// admits it.
    fn compose(&self, prefixed: bool, ln: bool, level: u8, message: &str) -> (r: Option<
        LogMessage,
    >)
        ensures
            match r {
                Some(m) => spec_log_output(self.level, prefixed, ln, level, message@) == Some(
                    (m.to_stderr, m.text@),
                ),
                None => spec_log_output(self.level, prefixed, ln, level, message@) is None,
            },
    {
        if 1 <= level && level <= 4 && self.level >= level {
            let mut text = String::new();
            if prefixed {
                text.append(get_prefix(level));
            }
            text.append(message);
            if ln {
                text.append("\n");
            }
            proof {
                assert(text@ =~= (if prefixed {
                    spec_prefix(level)
                } else {
                    Seq::<char>::empty()
                }) + message@ + (if ln {
                    "\n"@
                } else {
                    Seq::<char>::empty()
                }));
            }
            Some(LogMessage { to_stderr: level == 1, text })
        } else {
            None
        }
    }

    /// A prefixed debug message followed by a newline, if the level admits
    /// it.
    pub fn debugln(&self, message: &str) -> (r: Option<LogMessage>)
        ensures
            match r {
                Some(m) => spec_log_output(self.level, true, true, LOGLEVEL_DEBUG, message@)
                    == Some((m.to_stderr, m.text@)),
                None => spec_log_output(self.level, true, true, LOGLEVEL_DEBUG, message@) is None,
            },
    {
        self.logln(LOGLEVEL_DEBUG, message)
    }

    /// A prefixed debug message, if the level admits it.
    pub fn debug(&self, message: &str) -> (r: Option<LogMessage>)
        ensures
            match r {
                Some(m) => spec_log_output(self.level, true, false, LOGLEVEL_DEBUG, message@)
                    == Some((m.to_stderr, m.text@)),
                None => spec_log_output(self.level, true, false, LOGLEVEL_DEBUG, message@) is None,
            },
    {
        self.log(LOGLEVEL_DEBUG, message)
    }

    /// A prefixed info message followed by a newline, if the level admits
    /// it.
    pub fn infoln(&self, message: &str) -> (r: Option<LogMessage>)
        ensures
            match r {
                Some(m) => spec_log_output(self.level, true, true, LOGLEVEL_INFO, message@)
                    == Some((m.to_stderr, m.text@)),
                None => spec_log_output(self.level, true, true, LOGLEVEL_INFO, message@) is None,
            },
    {
        self.logln(LOGLEVEL_INFO, message)
    }

    /// A prefixed info message, if the level admits it.
    pub fn info(&self, message: &str) -> (r: Option<LogMessage>)
        ensures
            match r {
                Some(m) => spec_log_output(self.level, true, false, LOGLEVEL_INFO, message@)
                    == Some((m.to_stderr, m.text@)),
                None => spec_log_output(self.level, true, false, LOGLEVEL_INFO, message@) is None,
            },
    {
        self.log(LOGLEVEL_INFO, message)
    }

    /// A prefixed warning message followed by a newline, if the level
    /// admits it.
    pub fn warnln(&self, message: &str) -> (r: Option<LogMessage>)
        ensures
            match r {
                Some(m) => spec_log_output(self.level, true, true, LOGLEVEL_WARN, message@)
                    == Some((m.to_stderr, m.text@)),
                None => spec_log_output(self.level, true, true, LOGLEVEL_WARN, message@) is None,
            },
    {
        self.logln(LOGLEVEL_WARN, message)
    }

    /// A prefixed warning message, if the level admits it.
    pub fn warn(&self, message: &str) -> (r: Option<LogMessage>)
        ensures
            match r {
                Some(m) => spec_log_output(self.level, true, false, LOGLEVEL_WARN, message@)
                    == Some((m.to_stderr, m.text@)),
                None => spec_log_output(self.level, true, false, LOGLEVEL_WARN, message@) is None,
            },
    {
        self.log(LOGLEVEL_WARN, message)
    }

    /// A prefixed error message followed by a newline, for the error
    /// stream.
    pub fn errorln(&self, message: &str) -> (r: Option<LogMessage>)
        ensures
            match r {
                Some(m) => spec_log_output(self.level, true, true, LOGLEVEL_ERROR, message@)
                    == Some((m.to_stderr, m.text@)),
                None => spec_log_output(self.level, true, true, LOGLEVEL_ERROR, message@) is None,
            },
    {
        self.logln(LOGLEVEL_ERROR, message)
    }

    /// A prefixed error message, for the error stream.
    pub fn error(&self, message: &str) -> (r: Option<LogMessage>)
        ensures
            match r {
                Some(m) => spec_log_output(self.level, true, false, LOGLEVEL_ERROR, message@)
                    == Some((m.to_stderr, m.text@)),
                None => spec_log_output(self.level, true, false, LOGLEVEL_ERROR, message@) is None,
            },
    {
        self.log(LOGLEVEL_ERROR, message)
    }

    /// A prefixed message of the given level.
    pub fn log(&self, level: u8, message: &str) -> (r: Option<LogMessage>)
        ensures
            match r {
                Some(m) => spec_log_output(self.level, true, false, level, message@) == Some(
                    (m.to_stderr, m.text@),
                ),
                None => spec_log_output(self.level, true, false, level, message@) is None,
            },
    {
        self.compose(true, false, level, message)
    }

    /// A prefixed message of the given level, followed by a newline.
    pub fn logln(&self, level: u8, message: &str) -> (r: Option<LogMessage>)
        ensures
            match r {
                Some(m) => spec_log_output(self.level, true, true, level, message@) == Some(
                    (m.to_stderr, m.text@),
                ),
                None => spec_log_output(self.level, true, true, level, message@) is None,
            },
    {
        self.compose(true, true, level, message)
    }

    /// An unprefixed message of the given level.
    pub fn ulog(&self, level: u8, message: &str) -> (r: Option<LogMessage>)
        ensures
            match r {
                Some(m) => spec_log_output(self.level, false, false, level, message@) == Some(
                    (m.to_stderr, m.text@),
                ),
                None => spec_log_output(self.level, false, false, level, message@) is None,
            },
    {
        self.compose(false, false, level, message)
    }

    /// An unprefixed message of the given level, followed by a newline.
    pub fn ulogln(&self, level: u8, message: &str) -> (r: Option<LogMessage>)
        ensures
            match r {
                Some(m) => spec_log_output(self.level, false, true, level, message@) == Some(
                    (m.to_stderr, m.text@),
                ),
                None => spec_log_output(self.level, false, true, level, message@) is None,
            },
    {
        self.compose(false, true, level, message)
    }
}

} // verus!
