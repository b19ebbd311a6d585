//! The names of the files of a run.

use vstd::prelude::*;
use crate::text::{push_char, text_of};

verus! {

/// The character that stands in a file name for `c`: an underscore for a
/// space or a slash, and `c` itself otherwise.
pub open spec fn sanitized_char(c: char) -> char {
    if c == ' ' || c == '/' {
        '_'
    } else {
        c
    }
}

/// `name` with every space and every slash replaced by an underscore.
pub open spec fn sanitized(name: Seq<char>) -> Seq<char> {
    Seq::new(name.len(), |i: int| sanitized_char(name[i]))
}

/// Makes a name fit for a file name: every space and every slash becomes an
/// underscore, and every other character stays.
pub fn sanitize_filename(name: String) -> (clean: String)
    ensures
        clean@ == sanitized(name@),
{
    let mut clean = String::new();
    for c in it: name.as_str().chars()
        invariant
            it.seq() == name@,
            clean@ == sanitized(name@.take(it.index() as int)),
    {
        let out: char = if c == ' ' || c == '/' {
            '_'
        } else {
            c
        };
        push_char(&mut clean, out);
        assert(clean@ =~= sanitized(name@.take(it.index() + 1)));
    }
    assert(name@.take(name@.len() as int) =~= name@);
    clean
}

/// The name that a run without a descriptor is filed under: the empty name.
pub open spec fn filed_under(experiment_name: Option<Seq<char>>) -> Seq<char> {
    match experiment_name {
        Some(name) => name,
        None => Seq::empty(),
    }
}

/// The path of the snapshot of a run: in the directory `output_path`, the
/// sanitized name of the experiment, an underscore, the stamp of the run's
/// start, and the ending `.toml`.
pub open spec fn snapshot_path(
    output_path: Seq<char>,
    experiment_name: Option<Seq<char>>,
    suffix: Seq<char>,
) -> Seq<char> {
    output_path + "/"@ + sanitized(filed_under(experiment_name)) + "_"@ + suffix + ".toml"@
}

/// The path of the snapshot of a run. A run without a descriptor is filed
/// under the empty name, so that its path is stable too.
pub fn output_file_name(output_path: &str, experiment_name: Option<String>, suffix: &str) -> (path:
    String)
    ensures
        path@ == snapshot_path(
            output_path@,
            text_of(experiment_name),
            suffix@,
        ),
{
    let name = match experiment_name {
        Some(name) => name,
        None => String::new(),
    };
    let clean = sanitize_filename(name);
    let mut path = output_path.to_owned();
    path.append("/");
    path.append(clean.as_str());
    path.append("_");
    path.append(suffix);
    path.append(".toml");
    path
}

} // verus!
