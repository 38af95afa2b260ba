//! Log lines: a priority tag, styled for the terminal, before the message.

use vstd::prelude::*;
use vstd::string::*;
use crate::text_util::{bold, bold_spec, colored_foreground, colored_spec, Color};

verus! {

#[derive(Clone, Copy, PartialEq, Eq, Structural)]
pub enum Priority {
    Info,
    Warning,
    Error,
}

/// Where log messages go.
pub trait Logger {
    fn log(&self, priority: Priority, message: &str);

    fn log_info(&self, message: &str) {
        self.log(Priority::Info, message)
    }

    fn log_warning(&self, message: &str) {
        self.log(Priority::Warning, message)
    }

    fn log_error(&self, message: &str) {
        self.log(Priority::Error, message)
    }
}

/// A logger that drops every message.
pub struct VoidLogger;

impl Logger for VoidLogger {
    fn log(&self, priority: Priority, message: &str) {
    }
}

/// A logger for the terminal: each line is a date, then the message as
/// `format_with_priority` styles it.
pub struct StdoutLogger;

/// A message as it is logged at `priority`: info plain behind a bold tag,
/// warnings in yellow and errors in red.
pub open spec fn with_priority(priority: Priority, message: Seq<char>) -> Seq<char> {
    match priority {
        Priority::Info => bold_spec("INFO:"@) + " "@ + message,
        Priority::Warning => bold_spec(colored_spec("WARNING:"@, None, Some(Color::Yellow))) + " "@
            + colored_spec(message, None, Some(Color::Yellow)),
        Priority::Error => bold_spec(colored_spec("ERROR:"@, None, Some(Color::Red))) + " "@
            + colored_spec(message, None, Some(Color::Red)),
    }
}

pub fn format_with_priority(priority: Priority, message: &str) -> (r: String)
    ensures
        r@ == with_priority(priority, message@),
{
    match priority {
        Priority::Info => {
            let mut r = bold("INFO:");
            r.append(" ");
            r.append(message);
            r
        },
        Priority::Warning => {
            let tag = colored_foreground("WARNING:", Color::Yellow);
            let mut r = bold(tag.as_str());
            r.append(" ");
            r.append(colored_foreground(message, Color::Yellow).as_str());
            r
        },
        Priority::Error => {
            let tag = colored_foreground("ERROR:", Color::Red);
            let mut r = bold(tag.as_str());
            r.append(" ");
            r.append(colored_foreground(message, Color::Red).as_str());
            r
        },
    }
}

impl StdoutLogger {
    /// The line logged at `date_text` for `message` at `priority`.
    pub fn line(&self, date_text: &str, priority: Priority, message: &str) -> (r: String)
        ensures
            r@ == date_text@ + " "@ + with_priority(priority, message@),
    {
        let mut r = String::from_str(date_text);
        r.append(" ");
        r.append(format_with_priority(priority, message).as_str());
        r
    }
}

} // verus!
