//! Which build runs, and under which name a run is kept.
use vstd::prelude::*;

use crate::numbers::{decimal, push_decimal};
use crate::paths::{join_path, nonempty_word, path_join, word_of};
use crate::text::{
    chars_of, has_prefix, is_white, opt_view, split, split_on, starts_with_text, string_from,
    text_eq, trim, trimmed, views, white,
};

verus! {

// ---------------------------------------------------------------------------
// Names of builds and runs.
// ---------------------------------------------------------------------------

/// What the build recorded, else what a command says now, else a fallback.
pub open spec fn known_word(
    built: Option<Seq<char>>,
    output: Option<Seq<char>>,
    fallback: Seq<char>,
) -> Seq<char> {
    match word_of(built) {
        Some(word) => word,
        None => match word_of(output) {
            Some(word) => word,
            None => fallback,
        },
    }
}

fn pick_word(built: &Option<String>, output: &Option<String>, fallback: &str) -> (word: String)
    ensures
        word@ == known_word(opt_view(*built), opt_view(*output), fallback@),
{
    match nonempty_word(built) {
        Some(word) => word,
        None => match nonempty_word(output) {
            Some(word) => word,
            None => fallback.to_owned(),
        },
    }
}

/// The version of the compiler.
pub fn rustc_version(built: &Option<String>, output: &Option<String>) -> (version: String)
    ensures
        version@ == known_word(opt_view(*built), opt_view(*output), "unknown"@),
{
    pick_word(built, output, "unknown")
}

/// The commit of the build.
pub fn git_commit(built: &Option<String>, output: &Option<String>) -> (commit: String)
    ensures
        commit@ == known_word(opt_view(*built), opt_view(*output), "no-commits"@),
{
    pick_word(built, output, "no-commits")
}

/// The name of a run: the date where a command tells it, else the seconds since the epoch, zero
/// before it.
pub fn generate_run_id(date: &Option<String>, unix_seconds: Option<u64>) -> (id: String)
    ensures
        id@ == match word_of(opt_view(*date)) {
            Some(word) => word,
            None => "unix"@ + decimal(
                match unix_seconds {
                    Some(n) => n as nat,
                    None => 0,
                },
            ),
        },
{
    match nonempty_word(date) {
        Some(word) => word,
        None => {
            let seconds: u64 = match unix_seconds {
                Some(n) => n,
                None => 0,
            };
            let mut id = "unix".to_owned();
            push_decimal(&mut id, seconds as u128);
            id
        },
    }
}

/// What the marker file of the current run holds.
pub fn current_run_text(run_id: &str) -> (text: String)
    ensures
        text@ == run_id@ + "\n"@,
{
    let mut text = run_id.to_owned();
    text.append("\n");
    text
}

proof fn lemma_line_end()
    ensures
        "\n"@ == seq!['\n'],
        is_white('\n'),
{
    reveal_strlit("\n");
    assert("\n"@ =~= seq!['\n']);
}

/// The marker file of the current run gives its name back: reading what was written for a name
/// without blanks around it finds that name.
pub proof fn law_current_run_round_trip(run_id: Seq<char>)
    requires
        trimmed(run_id) == run_id,
        run_id.len() > 0,
    ensures
        word_of(Some(run_id + "\n"@)) == Some(run_id),
{
    lemma_line_end();
    lemma_trimmed_ends(run_id);
    let text = run_id + "\n"@;
    assert(text[0] == run_id[0]);
    assert(crate::text::trim_start(text) == text);
    assert(text.last() == '\n');
    assert(text.drop_last() =~= run_id);
}

proof fn lemma_trim_end_last(s: Seq<char>)
    ensures
        crate::text::trim_end(s).len() > 0 ==> !is_white(crate::text::trim_end(s).last()),
        crate::text::trim_end(s).len() <= s.len(),
        crate::text::trim_end(s).len() > 0 ==> crate::text::trim_end(s)[0] == s[0],
    decreases s.len(),
{
    if s.len() > 0 && is_white(s.last()) {
        lemma_trim_end_last(s.drop_last());
    }
}

proof fn lemma_trim_start_first(s: Seq<char>)
    ensures
        crate::text::trim_start(s).len() > 0 ==> !is_white(crate::text::trim_start(s)[0]),
    decreases s.len(),
{
    if s.len() > 0 && is_white(s[0]) {
        lemma_trim_start_first(s.drop_first());
    }
}

proof fn lemma_trimmed_ends(s: Seq<char>)
    requires
        trimmed(s).len() > 0,
    ensures
        !is_white(trimmed(s)[0]),
        !is_white(trimmed(s).last()),
{
    lemma_trim_start_first(s);
    lemma_trim_end_last(crate::text::trim_start(s));
}

// ---------------------------------------------------------------------------
// The commit of a working tree.
// ---------------------------------------------------------------------------

/// What the head of a working tree is.
#[derive(Debug, Clone, PartialEq, Eq)]
pub enum Head {
    /// A commit.
    Commit(String),
    /// A reference by its name.
    Reference(String),
}

/// What the head of a working tree is.
pub enum HeadView {
    Commit(Seq<char>),
    Reference(Seq<char>),
}

impl View for Head {
    type V = HeadView;

    open spec fn view(&self) -> HeadView {
        match *self {
            Head::Commit(commit) => HeadView::Commit(commit@),
            Head::Reference(name) => HeadView::Reference(name@),
        }
    }
}

/// What a head file says.
pub open spec fn head_of(content: Seq<char>) -> Option<HeadView> {
    let head = trimmed(content);
    if has_prefix(head, "ref: "@) {
        Some(HeadView::Reference(trimmed(head.skip(5))))
    } else if head.len() == 0 {
        None
    } else {
        Some(HeadView::Commit(head))
    }
}

fn behind(text: &str, n: usize) -> (rest: String)
    requires
        n <= text@.len(),
    ensures
        rest@ == text@.skip(n as int),
{
    let chars = chars_of(text);
    let rest = string_from(&chars, n, chars.len());
    assert(rest@ =~= text@.skip(n as int));
    rest
}

/// What a head file says.
pub fn parse_head(content: &str) -> (head: Option<Head>)
    ensures
        match head {
            Some(h) => Some(h@),
            None => None,
        } == head_of(content@),
{
    let text = trim(content);
    if starts_with_text(text.as_str(), "ref: ") {
        proof {
            reveal_strlit("ref: ");
        }
        let rest = behind(text.as_str(), 5);
        Some(Head::Reference(trim(rest.as_str())))
    } else if text.as_str().is_empty() {
        None
    } else {
        Some(Head::Commit(text))
    }
}

/// The directory that a file in place of a repository points to, seen from the file's own.
pub open spec fn git_dir_of(current: Seq<char>, content: Seq<char>) -> Option<Seq<char>> {
    let text = trimmed(content);
    if has_prefix(text, "gitdir:"@) {
        Some(path_join(current, trimmed(text.skip(7))))
    } else {
        None
    }
}

/// The directory that a file in place of a repository points to.
pub fn parse_git_dir(current: &str, content: &str) -> (dir: Option<String>)
    ensures
        opt_view(dir) == git_dir_of(current@, content@),
{
    let text = trim(content);
    if starts_with_text(text.as_str(), "gitdir:") {
        proof {
            reveal_strlit("gitdir:");
        }
        let rest = behind(text.as_str(), 7);
        let dir = trim(rest.as_str());
        Some(join_path(current, dir.as_str()))
    } else {
        None
    }
}

/// How many characters stand before the first white space.
pub open spec fn word_len(s: Seq<char>) -> nat
    decreases s.len(),
{
    if s.len() == 0 || is_white(s[0]) {
        0
    } else {
        1 + word_len(s.drop_first())
    }
}

/// The characters before the first white space.
pub open spec fn first_word(s: Seq<char>) -> Seq<char> {
    s.take(word_len(s) as int)
}

/// What stands behind the first word.
pub open spec fn after_word(s: Seq<char>) -> Seq<char> {
    trimmed(s.skip(word_len(s) as int))
}

/// Whether a line of packed references names none: it is empty, a comment or about a tag.
pub open spec fn names_nothing(line: Seq<char>) -> bool {
    line.len() == 0 || line[0] == '#' || line[0] == '^'
}

/// The commit of a reference among packed references. The search ends at a line without a name.
pub open spec fn packed_commit(lines: Seq<Seq<char>>, name: Seq<char>) -> Option<Seq<char>>
    decreases lines.len(),
{
    if lines.len() == 0 {
        None
    } else {
        let line = trimmed(lines[0]);
        let rest = packed_commit(lines.drop_first(), name);
        if names_nothing(line) {
            rest
        } else if after_word(line).len() == 0 {
            None
        } else if first_word(after_word(line)) == name {
            Some(first_word(line))
        } else {
            rest
        }
    }
}

fn cut_word(text: &str) -> (parts: (String, String))
    ensures
        parts.0@ == first_word(text@),
        parts.1@ == after_word(text@),
{
    let chars = chars_of(text);
    let mut n: usize = 0;
    assert(chars@.skip(0) =~= chars@);
    while n < chars.len() && !white(chars[n])
        invariant
            n <= chars.len(),
            word_len(chars@) == n + word_len(chars@.skip(n as int)),
        decreases chars.len() - n,
    {
        assert(chars@.skip(n as int).drop_first() =~= chars@.skip(n + 1));
        n += 1;
    }
    assert(word_len(chars@) == n);
    let word = string_from(&chars, 0, n);
    assert(word@ =~= first_word(text@));
    let rest = string_from(&chars, n, chars.len());
    assert(rest@ =~= text@.skip(n as int));
    (word, trim(rest.as_str()))
}

fn find_packed(lines: &Vec<String>, name: &str) -> (commit: Option<String>)
    ensures
        opt_view(commit) == packed_commit(views(lines@), name@),
{
    let ghost all = views(lines@);
    let mut i: usize = 0;
    assert(all.skip(0) =~= all);
    while i < lines.len()
        invariant
            i <= lines.len(),
            all == views(lines@),
            packed_commit(all, name@) == packed_commit(all.skip(i as int), name@),
        decreases lines.len() - i,
    {
        let ghost left = all.skip(i as int);
        assert(left[0] == lines@[i as int]@);
        assert(left.drop_first() =~= all.skip(i + 1));
        let line = trim(lines[i].as_str());
        let chars = chars_of(line.as_str());
        if !(chars.len() == 0 || chars[0] == '#' || chars[0] == '^') {
            let (commit, rest) = cut_word(line.as_str());
            if rest.as_str().is_empty() {
                return None;
            }
            let (found, _) = cut_word(rest.as_str());
            if text_eq(found.as_str(), name) {
                return Some(commit);
            }
        }
        i += 1;
    }
    None
}

/// The commit of a reference: what its own file holds, else what the packed references say.
pub fn reference_commit(
    name: &str,
    own: &Option<String>,
    packed: &Option<String>,
) -> (commit: Option<String>)
    ensures
        opt_view(commit) == match word_of(opt_view(*own)) {
            Some(word) => Some(word),
            None => match opt_view(*packed) {
                Some(content) => packed_commit(split_on(content, '\n'), name@),
                None => None,
            },
        },
{
    match nonempty_word(own) {
        Some(word) => Some(word),
        None => match packed {
            Some(content) => {
                let lines = split(content.as_str(), '\n');
                find_packed(&lines, name)
            },
            None => None,
        },
    }
}

} // verus!
