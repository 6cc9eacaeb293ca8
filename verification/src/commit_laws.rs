//! What holds of the commits of results, and of how a commit is found.
use vstd::prelude::*;

use crate::commits::{
    commit_counts, commit_parts, first_known, is_env_record, is_main_commit, is_placeholder,
    more_frequent, occurrences, ranked_commits,
};
use crate::identity::{
    after_word, first_word, git_dir_of, head_of, known_word, names_nothing, packed_commit,
    word_len, HeadView,
};
use crate::numbers::decimal;
use crate::paths::path_join;
use crate::sorting::{
    compares_ranks, distinct, law_distinct, law_sort_keeps_elements, law_sort_orders,
};
use crate::text::{
    has_prefix, is_white, lemma_text_less_total, lemma_text_less_trans, text_less, trimmed,
};
use crate::text_laws::{
    is_trim, law_trimming_takes_white_space, law_white_space_around_is_lost,
};

verus! {

// ---------------------------------------------------------------------------
// Commits of results.
// ---------------------------------------------------------------------------

proof fn lemma_more_frequent()
    ensures
        compares_ranks(more_frequent()),
{
    let less = more_frequent();
    assert forall|a: (Seq<char>, nat), b: (Seq<char>, nat), c: (Seq<char>, nat)|
        !#[trigger] less(a, b) && !#[trigger] less(b, c) implies !less(a, c) by {
        lemma_text_less_total(a.0, b.0);
        lemma_text_less_total(b.0, c.0);
        lemma_text_less_total(a.0, c.0);
        if text_less(c.0, b.0) && text_less(b.0, a.0) {
            lemma_text_less_trans(c.0, b.0, a.0);
        }
    }
    assert forall|a: (Seq<char>, nat), b: (Seq<char>, nat)| #[trigger] less(a, b) implies !less(
        b,
        a,
    ) by {
        lemma_text_less_total(a.0, b.0);
    }
}

proof fn lemma_ranked(commits: Seq<Seq<char>>)
    ensures
        forall|k: int|
            0 <= k < ranked_commits(commits).len() ==> commits.contains(
                (#[trigger] ranked_commits(commits)[k]).0,
            ) && ranked_commits(commits)[k].1 == occurrences(commits, ranked_commits(commits)[k].0),
        forall|c: Seq<char>| #[trigger]
            commits.contains(c) ==> ranked_commits(commits).contains((c, occurrences(commits, c))),
        ranked_commits(commits).no_duplicates(),
{
    let counts = commit_counts(commits);
    let ranked = ranked_commits(commits);
    let d = distinct(commits);
    law_distinct(commits);
    law_sort_keeps_elements(counts, more_frequent());
    counts.to_multiset_ensures();
    ranked.to_multiset_ensures();
    assert(counts.no_duplicates());
    counts.lemma_multiset_has_no_duplicates();
    ranked.lemma_multiset_has_no_duplicates_conv();
    assert forall|x: (Seq<char>, nat)| #[trigger] ranked.contains(x) <==> counts.contains(x) by {
        assert(ranked.contains(x) <==> ranked.to_multiset().count(x) > 0);
        assert(counts.contains(x) <==> counts.to_multiset().count(x) > 0);
    }
    assert forall|k: int| 0 <= k < ranked.len() implies commits.contains((#[trigger] ranked[k]).0)
        && ranked[k].1 == occurrences(commits, ranked[k].0) by {
        assert(ranked.contains(ranked[k]));
        let i = choose|i: int| 0 <= i < counts.len() && counts[i] == ranked[k];
        assert(d.contains(d[i]));
    }
    assert forall|c: Seq<char>| #[trigger] commits.contains(c) implies ranked.contains(
        (c, occurrences(commits, c)),
    ) by {
        assert(d.contains(c));
        let i = choose|i: int| 0 <= i < d.len() && d[i] == c;
        assert(counts[i] == (c, occurrences(commits, c)));
        assert(counts.contains((c, occurrences(commits, c))));
    }
}

/// Every commit is listed once with the number of its results, the most frequent first; of equally
/// frequent ones the first in the order of texts.
pub proof fn law_commits_are_listed_by_frequency(commits: Seq<Seq<char>>, a: int, b: int)
    requires
        0 <= a < b < ranked_commits(commits).len(),
    ensures
        ({
            let ranked = ranked_commits(commits);
            &&& ranked[a].0 != ranked[b].0
            &&& ranked[a].1 == occurrences(commits, ranked[a].0)
            &&& ranked[b].1 == occurrences(commits, ranked[b].0)
            &&& ranked[a].1 >= ranked[b].1
            &&& ranked[a].1 == ranked[b].1 ==> text_less(ranked[a].0, ranked[b].0)
        }),
        forall|c: Seq<char>| #[trigger]
            commits.contains(c) ==> ranked_commits(commits).contains((c, occurrences(commits, c))),
{
    lemma_ranked(commits);
    lemma_more_frequent();
    law_sort_orders(commit_counts(commits), more_frequent());
    let ranked = ranked_commits(commits);
    assert(!more_frequent()(ranked[b], ranked[a]));
    lemma_text_less_total(ranked[a].0, ranked[b].0);
}

proof fn lemma_first_known(all: Seq<(Seq<char>, nat)>)
    ensures
        (forall|k: int| 0 <= k < all.len() ==> is_placeholder((#[trigger] all[k]).0))
            ==> first_known(all) == "unknown"@,
        forall|k: int|
            0 <= k < all.len() && !is_placeholder((#[trigger] all[k]).0) && (forall|j: int|
                0 <= j < k ==> is_placeholder((#[trigger] all[j]).0)) ==> first_known(all)
                == all[k].0,
    decreases all.len(),
{
    if all.len() > 0 && is_placeholder(all[0].0) {
        let rest = all.drop_first();
        lemma_first_known(rest);
        if forall|k: int| 0 <= k < all.len() ==> is_placeholder((#[trigger] all[k]).0) {
            assert forall|k: int| 0 <= k < rest.len() implies is_placeholder(
                (#[trigger] rest[k]).0,
            ) by {
                assert(rest[k] == all[k + 1]);
            }
        }
        assert forall|k: int|
            0 <= k < all.len() && !is_placeholder((#[trigger] all[k]).0) && (forall|j: int|
                0 <= j < k ==> is_placeholder((#[trigger] all[j]).0)) implies first_known(all)
            == all[k].0 by {
            assert(rest[k - 1] == all[k]);
            assert forall|j: int| 0 <= j < k - 1 implies is_placeholder((#[trigger] rest[j]).0) by {
                assert(rest[j] == all[j + 1]);
            }
        }
    }
}

proof fn lemma_first_position(all: Seq<(Seq<char>, nat)>, n: int) -> (k: int)
    requires
        0 <= n < all.len(),
        !is_placeholder(all[n].0),
    ensures
        0 <= k <= n,
        !is_placeholder(all[k].0),
        forall|j: int| 0 <= j < k ==> is_placeholder((#[trigger] all[j]).0),
    decreases n,
{
    if exists|j: int| 0 <= j < n && !is_placeholder((#[trigger] all[j]).0) {
        let j = choose|j: int| 0 <= j < n && !is_placeholder((#[trigger] all[j]).0);
        lemma_first_position(all, j)
    } else {
        n
    }
}

/// The commit that the report names is a real one of the results, and no real one is more frequent;
/// of equally frequent ones it is the first in the order of texts. Where no result has a real
/// commit it is unknown.
pub proof fn law_the_named_commit_is_the_most_frequent(commits: Seq<Seq<char>>, c: Seq<char>)
    requires
        commits.contains(c),
        c != "unknown"@,
        c != "no-commits"@,
    ensures
        ({
            let named = first_known(ranked_commits(commits));
            &&& commits.contains(named)
            &&& named != "unknown"@
            &&& named != "no-commits"@
            &&& occurrences(commits, c) <= occurrences(commits, named)
            &&& occurrences(commits, c) == occurrences(commits, named) && c != named ==> text_less(
                named,
                c,
            )
        }),
{
    let ranked = ranked_commits(commits);
    lemma_ranked(commits);
    lemma_first_known(ranked);
    assert(ranked.contains((c, occurrences(commits, c))));
    let n = choose|n: int| 0 <= n < ranked.len() && ranked[n] == (c, occurrences(commits, c));
    let k = lemma_first_position(ranked, n);
    if k < n {
        law_commits_are_listed_by_frequency(commits, k, n);
    }
}

/// Where no result has a real commit, the report names none.
pub proof fn law_without_commits_none_is_named(commits: Seq<Seq<char>>)
    requires
        forall|k: int|
            0 <= k < commits.len() ==> #[trigger] commits[k] == "unknown"@ || commits[k]
                == "no-commits"@,
    ensures
        first_known(ranked_commits(commits)) == "unknown"@,
{
    let ranked = ranked_commits(commits);
    lemma_ranked(commits);
    lemma_first_known(ranked);
    assert forall|k: int| 0 <= k < ranked.len() implies is_placeholder((#[trigger] ranked[k]).0) by {
        assert(commits.contains(ranked[k].0));
    }
}

/// The report takes the environment from the first result of a real commit that no other is more
/// frequent than; of equally frequent ones it is the last in the order of texts.
pub proof fn law_environment_is_of_the_main_commit(commits: Seq<Seq<char>>, at: int, c: Seq<char>)
    requires
        is_env_record(commits, at),
        commits.contains(c),
        c != "unknown"@,
        c != "no-commits"@,
    ensures
        0 <= at < commits.len(),
        commits[at] != "unknown"@,
        commits[at] != "no-commits"@,
        occurrences(commits, c) <= occurrences(commits, commits[at]),
        occurrences(commits, c) == occurrences(commits, commits[at]) && c != commits[at]
            ==> text_less(c, commits[at]),
        forall|k: int| 0 <= k < at ==> #[trigger] commits[k] != commits[at],
{
    assert(commits.contains(c) && !is_placeholder(c));
    assert(is_main_commit(commits, commits[at]));
}

/// The list of commits shows the first three with their numbers, and how many more there are.
pub proof fn law_commit_lists_are_short(all: Seq<(Seq<char>, nat)>, i: int)
    requires
        0 <= i < all.len(),
    ensures
        all.len() <= 3 ==> commit_parts(all).len() == all.len(),
        all.len() > 3 ==> commit_parts(all).len() == 4 && exists|more: nat|
            more + 3 == all.len() && commit_parts(all)[3] == "+ "@ + #[trigger] decimal(more)
                + " more"@,
        i < 3 ==> commit_parts(all)[i] == all[i].0 + " ("@ + decimal(all[i].1) + ")"@,
{
    if all.len() > 3 {
        let more = (all.len() - 3) as nat;
        assert(commit_parts(all)[3] == "+ "@ + decimal(more) + " more"@);
    }
}

// ---------------------------------------------------------------------------
// How a commit is found.
// ---------------------------------------------------------------------------

proof fn lemma_trim_line(text: Seq<char>)
    requires
        text.len() > 0,
        is_trim(text),
    ensures
        trimmed(text + "\n"@) == text,
{
    reveal_strlit("\n");
    assert(is_white('\n'));
    let none = Seq::<char>::empty();
    law_white_space_around_is_lost(none, text, "\n"@);
    assert(none + text + "\n"@ =~= text + "\n"@);
}

/// A blank before a text is lost.
proof fn lemma_trim_blank(text: Seq<char>)
    requires
        text.len() > 0,
        is_trim(text),
    ensures
        trimmed(seq![' '] + text) == text,
{
    assert(is_white(' '));
    let none = Seq::<char>::empty();
    law_white_space_around_is_lost(seq![' '], text, none);
    assert(seq![' '] + text + none =~= seq![' '] + text);
}

proof fn lemma_trim_whole(text: Seq<char>)
    requires
        is_trim(text),
    ensures
        trimmed(text) == text,
{
    law_trimming_takes_white_space(text);
}

/// A head that names a reference is read as that reference, any other text as a commit.
pub proof fn law_heads_are_read(name: Seq<char>, commit: Seq<char>)
    requires
        name.len() > 0,
        is_trim(name),
        commit.len() > 0,
        is_trim(commit),
        !has_prefix(commit, "ref: "@),
    ensures
        head_of("ref: "@ + name + "\n"@) == Some(HeadView::Reference(name)),
        head_of(commit + "\n"@) == Some(HeadView::Commit(commit)),
        head_of(""@) is None,
{
    reveal_strlit("ref: ");
    reveal_strlit("");
    let line = "ref: "@ + name;
    assert(line[0] == 'r' && line.last() == name.last());
    lemma_trim_line(line);
    assert(line.subrange(0, 5) =~= "ref: "@);
    assert(line.skip(5) =~= name);
    lemma_trim_whole(name);
    lemma_trim_line(commit);
    lemma_trim_whole(""@);
}

/// A file that points to the directory of a repository is read as that directory, below the current
/// one unless it starts at the root; any other text points nowhere.
pub proof fn law_pointers_are_followed(current: Seq<char>, dir: Seq<char>, other: Seq<char>)
    requires
        dir.len() > 0,
        is_trim(dir),
        !has_prefix(trimmed(other), "gitdir:"@),
    ensures
        git_dir_of(current, "gitdir: "@ + dir + "\n"@) == Some(path_join(current, dir)),
        git_dir_of(current, other) is None,
{
    reveal_strlit("gitdir: ");
    reveal_strlit("gitdir:");
    let line = "gitdir: "@ + dir;
    assert(line[0] == 'g' && line.last() == dir.last());
    lemma_trim_line(line);
    assert(line.subrange(0, 7) =~= "gitdir:"@);
    let rest = line.skip(7);
    assert(rest =~= seq![' '] + dir);
    lemma_trim_blank(dir);
}

/// What was built in is known first, then what a command printed, then the fallback; white space
/// around a word does not count, and nothing else is no word.
pub proof fn law_the_built_in_word_wins(
    built: Seq<char>,
    output: Seq<char>,
    fallback: Seq<char>,
    other: Option<Seq<char>>,
)
    requires
        built.len() > 0,
        is_trim(built),
        output.len() > 0,
        is_trim(output),
    ensures
        known_word(Some(built + "\n"@), other, fallback) == built,
        known_word(None, Some(output + "\n"@), fallback) == output,
        known_word(None, None, fallback) == fallback,
        known_word(Some(""@), Some(output), fallback) == output,
{
    reveal_strlit("");
    lemma_trim_line(built);
    lemma_trim_line(output);
    lemma_trim_whole(output);
    lemma_trim_whole(""@);
}

/// Whether a text is an entry of a list of references: a commit and a name with a blank between.
pub open spec fn is_entry(text: Seq<char>, commit: Seq<char>, name: Seq<char>) -> bool {
    &&& is_word(commit)
    &&& is_word(name)
    &&& commit[0] != '#'
    &&& commit[0] != '^'
    &&& text == commit + seq![' '] + name
}

/// Whether a line of a list of references is a comment, the commit of a tag, or empty.
pub open spec fn is_no_entry(text: Seq<char>) -> bool {
    text.len() == 0 || text[0] == '#' || text[0] == '^'
}

/// Whether a line of a list of references is of another name, or of none.
pub open spec fn is_of_another(line: Seq<char>, name: Seq<char>) -> bool {
    is_no_entry(trimmed(line)) || exists|commit: Seq<char>, other: Seq<char>| #[trigger]
        is_entry(trimmed(line), commit, other) && other != name
}

/// What a line of another name does.
proof fn lemma_of_another(line: Seq<char>, name: Seq<char>)
    requires
        is_of_another(line, name),
    ensures
        ({
            let text = trimmed(line);
            names_nothing(text) || (after_word(text).len() > 0 && first_word(after_word(text))
                != name)
        }),
{
    let text = trimmed(line);
    if !is_no_entry(text) {
        let (commit, other) = choose|commit: Seq<char>, other: Seq<char>| #[trigger]
            is_entry(text, commit, other) && other != name;
        lemma_packed_line(commit, other);
    }
}

proof fn lemma_word_len(word: Seq<char>, rest: Seq<char>)
    requires
        forall|i: int| 0 <= i < word.len() ==> !is_white(#[trigger] word[i]),
        rest.len() > 0 ==> is_white(rest[0]),
    ensures
        word_len(word + rest) == word.len(),
    decreases word.len(),
{
    let s = word + rest;
    if word.len() > 0 {
        let tail = word.drop_first();
        assert forall|i: int| 0 <= i < tail.len() implies !is_white(#[trigger] tail[i]) by {
            assert(tail[i] == word[i + 1]);
        }
        lemma_word_len(tail, rest);
        assert(s.drop_first() =~= tail + rest);
        assert(s[0] == word[0]);
        assert(!is_white(word[0]));
    } else {
        assert(s =~= rest);
    }
}

/// Whether a text is one word.
pub open spec fn is_word(s: Seq<char>) -> bool {
    s.len() > 0 && forall|i: int| 0 <= i < s.len() ==> !is_white(#[trigger] s[i])
}

proof fn lemma_packed_line(commit: Seq<char>, name: Seq<char>)
    requires
        is_word(commit),
        is_word(name),
        commit[0] != '#',
        commit[0] != '^',
    ensures
        ({
            let line = commit + seq![' '] + name;
            &&& trimmed(line) == line
            &&& !names_nothing(line)
            &&& first_word(line) == commit
            &&& after_word(line) == name
            &&& first_word(name) == name
        }),
{
    let line = commit + seq![' '] + name;
    assert(line[0] == commit[0]);
    assert(line.last() == name[name.len() - 1]);
    lemma_trim_whole(line);
    assert(is_white(' '));
    let rest = seq![' '] + name;
    lemma_word_len(commit, rest);
    assert(line =~= commit + rest);
    assert(line.take(commit.len() as int) =~= commit);
    assert(line.skip(commit.len() as int) =~= rest);
    assert(!is_white(name[0]) && !is_white(name[name.len() - 1]));
    lemma_trim_blank(name);
    lemma_word_len(name, Seq::empty());
    assert(name + Seq::empty() =~= name);
    assert(name.take(name.len() as int) =~= name);
}

/// A packed reference gives the commit of the first line of its name, past comments and lines of
/// other names.
pub proof fn law_packed_references_are_found(
    lines: Seq<Seq<char>>,
    at: int,
    commit: Seq<char>,
    name: Seq<char>,
)
    requires
        0 <= at < lines.len(),
        is_entry(lines[at], commit, name),
        forall|k: int| 0 <= k < at ==> #[trigger] is_of_another(lines[k], name),
    ensures
        packed_commit(lines, name) == Some(commit),
    decreases at,
{
    if at == 0 {
        lemma_packed_line(commit, name);
    } else {
        let rest = lines.drop_first();
        assert forall|k: int| 0 <= k < at - 1 implies #[trigger] is_of_another(rest[k], name) by {
            assert(is_of_another(lines[k + 1], name));
        }
        law_packed_references_are_found(rest, at - 1, commit, name);
        assert(is_of_another(lines[0], name));
        lemma_of_another(lines[0], name);
    }
}

/// A name that no line has is not found.
pub proof fn law_other_references_are_not_taken(lines: Seq<Seq<char>>, name: Seq<char>)
    requires
        forall|k: int| 0 <= k < lines.len() ==> #[trigger] is_of_another(lines[k], name),
    ensures
        packed_commit(lines, name) is None,
    decreases lines.len(),
{
    if lines.len() > 0 {
        let rest = lines.drop_first();
        assert forall|k: int| 0 <= k < rest.len() implies #[trigger] is_of_another(rest[k], name) by {
            assert(is_of_another(lines[k + 1], name));
        }
        law_other_references_are_not_taken(rest, name);
        assert(is_of_another(lines[0], name));
        lemma_of_another(lines[0], name);
    }
}

/// Without real commits the environment is that of the first result.
pub proof fn law_without_commits_the_first_result_counts(commits: Seq<Seq<char>>, at: int)
    requires
        is_env_record(commits, at),
        forall|k: int|
            0 <= k < commits.len() ==> #[trigger] commits[k] == "unknown"@ || commits[k]
                == "no-commits"@,
    ensures
        at == 0,
{
    assert forall|c: Seq<char>| commits.contains(c) implies is_placeholder(c) by {
        let k = choose|k: int| 0 <= k < commits.len() && commits[k] == c;
        assert(commits[k] == c);
    }
}

/// A commit occurs once more with each result of it, and no more with any other.
pub proof fn law_results_of_a_commit_are_counted(
    commits: Seq<Seq<char>>,
    c: Seq<char>,
    other: Seq<char>,
)
    requires
        other != c,
    ensures
        occurrences(Seq::empty(), c) == 0,
        occurrences(commits.push(c), c) == occurrences(commits, c) + 1,
        occurrences(commits.push(other), c) == occurrences(commits, c),
{
    assert(commits.push(c).drop_last() =~= commits);
    assert(commits.push(other).drop_last() =~= commits);
}

} // verus!
