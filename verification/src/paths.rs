//! Paths as text.
use vstd::prelude::*;

use crate::text::{chars_of, contains_text, has_part, trim, trimmed};

verus! {

/// `part` below the directory `base`. An absolute part stands for itself; a separator is put in
/// unless the directory is empty or already ends in one.
pub open spec fn path_join(base: Seq<char>, part: Seq<char>) -> Seq<char> {
    if part.len() > 0 && part[0] == '/' {
        part
    } else if base.len() == 0 || base.last() == '/' {
        base + part
    } else {
        base + "/"@ + part
    }
}

/// `part` below the directory `base`.
pub fn join_path(base: &str, part: &str) -> (out: String)
    ensures
        out@ == path_join(base@, part@),
{
    let chars = chars_of(part);
    if chars.len() > 0 && chars[0] == '/' {
        return part.to_owned();
    }
    let dir = chars_of(base);
    let mut out = base.to_owned();
    if dir.len() > 0 && dir[dir.len() - 1] != '/' {
        out.append("/");
    }
    out.append(part);
    out
}

/// Whether a path is a location with a scheme.
pub fn is_uri_path(path: &str) -> (yes: bool)
    ensures
        yes == has_part(path@, "://"@),
{
    contains_text(path, "://")
}

/// The directory of the current run, or a fallback where no run is current. `current` is what
/// the marker file of the results directory holds.
pub open spec fn run_subdir(current: Option<Seq<char>>, subdir: Seq<char>, fallback: Seq<char>) -> Seq<
    char,
> {
    match current {
        Some(text) if trimmed(text).len() > 0 => path_join(
            path_join("results/runs"@, trimmed(text)),
            subdir,
        ),
        _ => fallback,
    }
}

/// The directory of the current run, or a fallback where no run is current.
pub fn default_run_subdir(current: &Option<String>, subdir: &str, fallback: &str) -> (out: String)
    ensures
        out@ == run_subdir(crate::text::opt_view(*current), subdir@, fallback@),
{
    match current {
        Some(text) => {
            let run_id = trim(text.as_str());
            if run_id.as_str().is_empty() {
                fallback.to_owned()
            } else {
                let root = join_path("results/runs", run_id.as_str());
                join_path(root.as_str(), subdir)
            }
        },
        None => fallback.to_owned(),
    }
}

/// Where results are read from by default.
pub fn default_results_dir(current: &Option<String>) -> (out: String)
    ensures
        out@ == run_subdir(crate::text::opt_view(*current), "json"@, "results/json"@),
{
    default_run_subdir(current, "json", "results/json")
}

/// Where plots are written to by default.
pub fn default_plots_dir(current: &Option<String>) -> (out: String)
    ensures
        out@ == run_subdir(crate::text::opt_view(*current), "plots"@, "results/plots"@),
{
    default_run_subdir(current, "plots", "results/plots")
}

/// The text of a command's output without surrounding white space, where anything is left.
pub open spec fn word_of(output: Option<Seq<char>>) -> Option<Seq<char>> {
    match output {
        Some(text) if trimmed(text).len() > 0 => Some(trimmed(text)),
        _ => None,
    }
}

/// The text of a command's output without surrounding white space, where anything is left.
pub fn nonempty_word(output: &Option<String>) -> (word: Option<String>)
    ensures
        crate::text::opt_view(word) == word_of(crate::text::opt_view(*output)),
{
    match output {
        Some(text) => {
            let word = trim(text.as_str());
            if word.as_str().is_empty() {
                None
            } else {
                Some(word)
            }
        },
        None => None,
    }
}

} // verus!
