//! The lines that the plugin logs.

use crate::text::law_replaced_without_occurrence;
use crate::text::occurs_in;
use crate::text::replace;
use crate::text::replaced;
use crate::text::same_text;
use vstd::prelude::*;
use vstd::string::StringExecFns;

verus! {

/// How severe a log message is.
#[derive(Clone, Copy, Debug, PartialEq, Eq, Structural)]
pub enum Level {
    Error,
    Warn,
    Info,
    Debug,
    Trace,
}

/// A module path with its surroundings in a log line; empty without a path.
pub open spec fn module_text(module: Option<&str>) -> Seq<char> {
    match module {
        Some(m) => " "@ + replaced(m@, "::reexport_dataset_modules:"@, ""@) + " |"@,
        None => ""@,
    }
}

/// A line for the terminal.
pub fn log_format(ts: &str, level: &str, module: Option<&str>, args: &str) -> (line: String)
    ensures
        line@ == ts@ + " | "@ + level@ + " | "@ + module_text(module) + " "@ + args@ + "\n"@,
{
    let mut line: String = String::from_str(ts);
    line.append(" | ");
    line.append(level);
    line.append(" | ");
    let mut place: String = String::from_str("");
    match module {
        Some(m) => {
            proof {
                reveal_strlit("::reexport_dataset_modules:");
            }
            let path: String = replace(m, "::reexport_dataset_modules:", "");
            place = String::from_str(" ");
            place.append(path.as_str());
            place.append(" |");
        },
        None => {},
    }
    line.append(place.as_str());
    line.append(" ");
    line.append(args);
    line.append("\n");
    line
}

/// Whether lines are to be written for the system log, given the style that the user asked for.
pub fn wants_syslog(style: &Option<String>) -> (r: bool)
    ensures
        r == (style is Some && style->0@ == "SYSTEMD"@),
{
    match style {
        Some(s) => same_text(s.as_str(), "SYSTEMD"),
        None => false,
    }
}

/// The severity of a level in the numbering of the system log.
pub open spec fn priority(level: Level) -> Seq<char> {
    match level {
        Level::Error => "3"@,
        Level::Warn => "4"@,
        Level::Info => "6"@,
        Level::Debug => "7"@,
        Level::Trace => "7"@,
    }
}

/// A line for the system log.
pub fn syslog_format(level: Level, target: &str, args: &str) -> (line: String)
    ensures
        line@ == "<"@ + priority(level) + ">"@ + target@ + ": "@ + args@ + "\n"@,
{
    let mut line: String = String::from_str("<");
    match level {
        Level::Error => line.append("3"),
        Level::Warn => line.append("4"),
        Level::Info => line.append("6"),
        Level::Debug => line.append("7"),
        Level::Trace => line.append("7"),
    }
    line.append(">");
    line.append(target);
    line.append(": ");
    line.append(args);
    line.append("\n");
    line
}

/// A module path stands in a line as it is, between a space and a bar, unless it holds the marker
/// of a re-exported module. Without a path nothing stands there.
pub proof fn law_module_path_is_kept(m: &str)
    ensures
        !occurs_in(m@, "::reexport_dataset_modules:"@) ==> module_text(Some(m)) == " "@ + m@ + " |"@,
        module_text(Some(m)) == " "@ + replaced(m@, "::reexport_dataset_modules:"@, ""@) + " |"@,
        module_text(None) == ""@,
{
    if !occurs_in(m@, "::reexport_dataset_modules:"@) {
        law_replaced_without_occurrence(m@, "::reexport_dataset_modules:"@, ""@);
    }
}

/// The severity of a message falls, and its number rises, from errors to traces.
pub proof fn law_priorities()
    ensures
        priority(Level::Error) == "3"@,
        priority(Level::Warn) == "4"@,
        priority(Level::Info) == "6"@,
        priority(Level::Debug) == "7"@,
        priority(Level::Trace) == "7"@,
{
}

} // verus!
