//! The launched script: the log level it is given, and the reading of its
//! diagnostics.

use vstd::prelude::*;
use crate::cli_tool::args::LogLevel;
use crate::text::{contains, occurs_at, occurs_in, starts_with, trim, trimmed};

verus! {

/// The name by which the launched script knows a log level.
pub open spec fn python_level_name(level: LogLevel) -> Seq<char> {
    match level {
        LogLevel::Error => "ERROR"@,
        LogLevel::Warn => "WARNING"@,
        LogLevel::Info => "INFO"@,
        LogLevel::Debug => "DEBUG"@,
        LogLevel::Trace => "DEBUG"@,
        LogLevel::Off => "ERROR"@,
    }
}

/// The name by which the launched script knows a log level. The script has
/// no level below debug and none above error.
pub fn python_level(level: LogLevel) -> (name: &'static str)
    ensures
        name@ == python_level_name(level),
{
    match level {
        LogLevel::Error => "ERROR",
        LogLevel::Warn => "WARNING",
        LogLevel::Info => "INFO",
        LogLevel::Debug => "DEBUG",
        LogLevel::Trace => "DEBUG",
        LogLevel::Off => "ERROR",
    }
}

/// How grave a line of the launched process's diagnostics is.
#[derive(Debug, Clone, Copy, PartialEq, Eq, Structural)]
pub enum Severity {
    Error,
    Warn,
    Debug,
}

/// Reads the diagnostic stream of a launched process line by line, and
/// tells the report of a crash from the rest.
///
/// A report starts with a line that begins with `report_start` and ends
/// with the next blank line.
#[derive(Debug, Clone, PartialEq)]
pub struct StderrClassifier {
    /// How the first line of a crash report begins.
    pub report_start: String,
    /// What a line holds that tells of an interrupt by the user.
    pub interrupt_mark: String,
    /// Whether the lines read so far end inside a crash report.
    pub in_report: bool,
}

/// How grave `line` is, for a classifier with these marks that is inside a
/// crash report or not. Every line of a crash report is an error, the blank
/// line that ends it too; outside a report, a line that tells of an
/// interrupt is a warning, and every other line is for debugging.
pub open spec fn severity_of(
    report_start: Seq<char>,
    interrupt_mark: Seq<char>,
    in_report: bool,
    line: Seq<char>,
) -> Severity {
    if occurs_at(line, report_start, 0) || in_report {
        Severity::Error
    } else if occurs_in(line, interrupt_mark) {
        Severity::Warn
    } else {
        Severity::Debug
    }
}

/// Whether a classifier is inside a crash report after `line`: it is from
/// the first line of a report up to the blank line that ends it.
pub open spec fn in_report_after(report_start: Seq<char>, in_report: bool, line: Seq<char>) -> bool {
    if occurs_at(line, report_start, 0) {
        true
    } else {
        in_report && trimmed(line).len() > 0
    }
}

impl StderrClassifier {
    /// A classifier for the diagnostics of a Python script.
    pub fn python() -> (classifier: Self)
        ensures
            classifier.report_start@ == "Traceback (most recent call last):"@,
            classifier.interrupt_mark@ == "(Ctrl+C)"@,
            !classifier.in_report,
    {
        StderrClassifier {
            report_start: "Traceback (most recent call last):".to_owned(),
            interrupt_mark: "(Ctrl+C)".to_owned(),
            in_report: false,
        }
    }

    /// Takes the next line of the stream and says how grave it is.
    pub fn classify(&mut self, line: &str) -> (severity: Severity)
        ensures
            severity == severity_of(
                old(self).report_start@,
                old(self).interrupt_mark@,
                old(self).in_report,
                line@,
            ),
            final(self).in_report == in_report_after(
                old(self).report_start@,
                old(self).in_report,
                line@,
            ),
            final(self).report_start == old(self).report_start,
            final(self).interrupt_mark == old(self).interrupt_mark,
    {
        if starts_with(line, self.report_start.as_str()) {
            self.in_report = true;
            Severity::Error
        } else if self.in_report {
            if trim(line).is_empty() {
                self.in_report = false;
            }
            Severity::Error
        } else if contains(line, self.interrupt_mark.as_str()) {
            Severity::Warn
        } else {
            Severity::Debug
        }
    }
}

} // verus!
