//! The arguments of the process, and what the options mean.

use vstd::prelude::*;
use crate::text::{
    concat, contains, occurs_at, occurs_in, split_once, starts_with, text_of, texts,
};

verus! {

/// How much of the log is shown.
#[derive(Debug, Clone, Copy, PartialEq, Eq, Structural)]
pub enum LogLevel {
    Off,
    Error,
    Warn,
    Info,
    Debug,
    Trace,
}

/// The log level for a verbosity given on the command line: errors only at
/// 0, then warnings, the summary of the run, the data, and everything from
/// 4 on.
pub open spec fn level_of(verbosity: u8) -> LogLevel {
    if verbosity == 0 {
        LogLevel::Error
    } else if verbosity == 1 {
        LogLevel::Warn
    } else if verbosity == 2 {
        LogLevel::Info
    } else if verbosity == 3 {
        LogLevel::Debug
    } else {
        LogLevel::Trace
    }
}

/// The log level for a verbosity given on the command line.
pub fn log_level(verbosity: u8) -> (level: LogLevel)
    ensures
        level == level_of(verbosity),
{
    match verbosity {
        0 => LogLevel::Error,
        1 => LogLevel::Warn,
        2 => LogLevel::Info,
        3 => LogLevel::Debug,
        _ => LogLevel::Trace,
    }
}

/// The seconds in so many minutes, or `u64::MAX` where they are more than
/// that.
pub open spec fn seconds_in(minutes: u64) -> int {
    if minutes * 60 <= u64::MAX {
        minutes * 60
    } else {
        u64::MAX as int
    }
}

/// How long to wait before a run, in seconds, for a delay in minutes.
pub fn delay_seconds(minutes: u64) -> (seconds: u64)
    ensures
        seconds == seconds_in(minutes),
{
    if minutes > u64::MAX / 60 {
        u64::MAX
    } else {
        minutes * 60
    }
}

/// The word by which an argument is known to name the interpreter.
pub const INTERPRETER_MARK: &'static str = "python";

/// The directory of the tool chain in the path of an interpreter.
pub const TOOLCHAIN_MARK: &'static str = ".rye";

/// Where the interpreter of this tool lies below the directory of the tool
/// chain, on Windows.
pub const WINDOWS_INTERPRETER: &'static str = "\\tools\\spcs-instruments\\Scripts\\python.exe";

/// Whether an argument names the interpreter.
pub open spec fn names_interpreter(arg: Seq<char>) -> bool {
    occurs_in(arg, INTERPRETER_MARK@)
}

/// Where `part` occurs first in `s`.
pub open spec fn first_at(s: Seq<char>, part: Seq<char>) -> int {
    choose|at: int| occurs_at(s, part, at) && forall|j: int| 0 <= j < at ==> !occurs_at(s, part, j)
}

/// `s` up to where `part` occurs first, or all of `s` where it does not
/// occur.
pub open spec fn before_first(s: Seq<char>, part: Seq<char>) -> Seq<char> {
    if occurs_in(s, part) {
        s.take(first_at(s, part))
    } else {
        s
    }
}

/// The path of the interpreter of this tool on Windows, for the path of an
/// interpreter as the launcher gives it: what stands before the directory
/// of the tool chain, that directory, and the fixed way from there.
pub open spec fn windows_path(given: Seq<char>) -> Seq<char> {
    before_first(given, TOOLCHAIN_MARK@) + TOOLCHAIN_MARK@ + WINDOWS_INTERPRETER@
}

/// The first argument that names the interpreter, if there is one.
pub open spec fn first_interpreter(args: Seq<Seq<char>>) -> Option<Seq<char>>
    decreases args.len(),
{
    if args.len() == 0 {
        None
    } else {
        match first_interpreter(args.drop_last()) {
            Some(found) => Some(found),
            None => if names_interpreter(args.last()) {
                Some(args.last())
            } else {
                None
            },
        }
    }
}

/// The arguments that do not name the interpreter, in their order.
pub open spec fn other_arguments(args: Seq<Seq<char>>) -> Seq<Seq<char>>
    decreases args.len(),
{
    if args.len() == 0 {
        Seq::empty()
    } else if names_interpreter(args.last()) {
        other_arguments(args.drop_last())
    } else {
        other_arguments(args.drop_last()).push(args.last())
    }
}

/// The path of the interpreter to launch, for the arguments of the
/// process: the first argument that names the interpreter, set right on
/// Windows, or the empty path where none does.
pub open spec fn interpreter_path(args: Seq<Seq<char>>, windows: bool) -> Seq<char> {
    match first_interpreter(args) {
        Some(given) => if windows {
            windows_path(given)
        } else {
            given
        },
        None => Seq::empty(),
    }
}

/// `given` up to the first occurrence of `part`.
fn take_before_first<'a>(given: &'a str, part: &str) -> (before: &'a str)
    ensures
        before@ == before_first(given@, part@),
{
    match split_once(given, part) {
        Some((before, after)) => {
            proof {
                let at = before@.len() as int;
                assert((before@ + part@ + after@).subrange(at, at + part@.len()) =~= part@);
                assert(occurs_at(given@, part@, at));
                let first = first_at(given@, part@);
                assert(occurs_at(given@, part@, first) && forall|j: int|
                    0 <= j < first ==> !occurs_at(given@, part@, j));
                assert(first == at);
                assert(given@.take(at) =~= before@);
            }
            before
        },
        None => given,
    }
}

/// Parts the arguments of the process into those for this tool and the
/// path of the interpreter to launch. An argument that names the
/// interpreter is none for this tool; the first of them gives the path,
/// which on Windows is set right as `windows_path` says. Where no argument
/// names the interpreter the path is empty.
pub fn process_args(raw_args: Vec<String>, windows: bool) -> (parted: (Vec<String>, String))
    ensures
        texts(parted.0@) == other_arguments(texts(raw_args@)),
        parted.1@ == interpreter_path(texts(raw_args@), windows),
{
    let ghost all = texts(raw_args@);
    let mut cleaned: Vec<String> = Vec::new();
    let mut found: Option<String> = None;
    let ghost mut done: int = 0;
    for arg in it: raw_args
        invariant
            done == it.index(),
            it.seq() == raw_args@,
            all == texts(raw_args@),
            texts(cleaned@) == other_arguments(all.take(done)),
            text_of(found) == first_interpreter(all.take(done)),
    {
        proof {
            assert(all.take(done + 1).drop_last() =~= all.take(done));
            assert(all.take(done + 1).last() == arg@);
        }
        let ghost before = texts(cleaned@);
        if contains(arg.as_str(), INTERPRETER_MARK) {
            if found.is_none() {
                found = Some(arg);
            }
        } else {
            cleaned.push(arg);
            proof {
                assert(texts(cleaned@) =~= before.push(arg@));
            }
        }
        proof {
            done = done + 1;
        }
    }
    proof {
        assert(all.take(all.len() as int) =~= all);
    }
    let path = match found {
        Some(given) => {
            if windows {
                let before = take_before_first(given.as_str(), TOOLCHAIN_MARK);
                let mut path = concat(before, TOOLCHAIN_MARK);
                path.append(WINDOWS_INTERPRETER);
                path
            } else {
                given
            }
        },
        None => String::new(),
    };
    (cleaned, path)
}

/// Whether an argument is an option: it begins with a dash.
pub open spec fn is_option(arg: Seq<char>) -> bool {
    occurs_at(arg, "-"@, 0)
}

/// The arguments with the first of them that is no option replaced by the
/// name of the program; unchanged where all are options.
pub open spec fn named(args: Seq<Seq<char>>, program: Seq<char>) -> Seq<Seq<char>> {
    if exists|i: int| 0 <= i < args.len() && !is_option(#[trigger] args[i]) {
        let first = choose|i: int|
            0 <= i < args.len() && !is_option(#[trigger] args[i]) && forall|j: int|
                0 <= j < i ==> is_option(#[trigger] args[j]);
        args.update(first, program)
    } else {
        args
    }
}

/// Puts the name of the program in the place of the first argument that is
/// no option, which is where the launcher leaves the path it was found
/// under.
pub fn name_program(args: &mut Vec<String>, program: &str)
    ensures
        texts(final(args)@) == named(texts(old(args)@), program@),
{
    let ghost all = texts(args@);
    let n: usize = args.len();
    let mut i: usize = 0;
    while i < n
        invariant
            n == args.len(),
            i <= n,
            all == texts(args@),
            args@ == old(args)@,
            forall|j: int| 0 <= j < i ==> is_option(#[trigger] all[j]),
        decreases n - i,
    {
        if !starts_with(args[i].as_str(), "-") {
            proof {
                let first = choose|k: int|
                    0 <= k < all.len() && !is_option(#[trigger] all[k]) && forall|j: int|
                        0 <= j < k ==> is_option(#[trigger] all[j]);
                assert(!is_option(all[i as int]));
                assert(first == i);
            }
            args[i] = program.to_owned();
            proof {
                assert(texts(args@) =~= all.update(i as int, program@));
            }
            return ;
        }
        i += 1;
    }
}

} // verus!
