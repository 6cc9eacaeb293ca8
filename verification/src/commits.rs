//! Which commits the results of a report were measured at.
use vstd::prelude::*;

use crate::numbers::{decimal, push_decimal};
use crate::records::RunRecord;
use crate::sorting::{distinct, sort_by, stable_sort};
use crate::text::{
    join, joined, lemma_text_less_total, lemma_views_push, list_contains, text_eq, text_less,
    text_lt, views,
};

verus! {

/// Why no report can be made.
#[derive(Debug, Clone, Copy, PartialEq, Eq, Structural)]
pub enum ReportError {
    NoResults,
}

impl ReportError {
    /// The message for the user.
    pub fn message(&self) -> (text: &'static str)
        ensures
            text@ == "no results found"@,
    {
        "no results found"
    }
}

/// Whether a commit id stands for a missing one.
pub open spec fn is_placeholder(commit: Seq<char>) -> bool {
    commit == "unknown"@ || commit == "no-commits"@
}

/// Whether a commit id stands for a missing one.
pub fn is_unknown_commit(commit: &str) -> (yes: bool)
    ensures
        yes == is_placeholder(commit@),
{
    text_eq(commit, "unknown") || text_eq(commit, "no-commits")
}

/// The commits of the records, in their order.
pub open spec fn commits_of(records: Seq<RunRecord>) -> Seq<Seq<char>> {
    Seq::new(records.len(), |i: int| records[i].result.meta.git_commit@)
}

/// How often `x` occurs in `s`.
pub open spec fn occurrences(s: Seq<Seq<char>>, x: Seq<char>) -> nat
    decreases s.len(),
{
    if s.len() == 0 {
        0
    } else {
        occurrences(s.drop_last(), x) + if s.last() == x {
            1nat
        } else {
            0
        }
    }
}

/// How many records have a commit.
fn count_commit(records: &Vec<RunRecord>, commit: &str) -> (n: u64)
    ensures
        n == occurrences(commits_of(records@), commit@),
{
    let ghost commits = commits_of(records@);
    let mut n: u64 = 0;
    let mut i: usize = 0;
    assert(commits.take(0) =~= Seq::<Seq<char>>::empty());
    while i < records.len()
        invariant
            i <= records.len(),
            commits == commits_of(records@),
            n == occurrences(commits.take(i as int), commit@),
            n <= i,
        decreases records.len() - i,
    {
        assert(commits.take(i as int + 1).drop_last() =~= commits.take(i as int));
        if text_eq(records[i].result.meta.git_commit.as_str(), commit) {
            n += 1;
        }
        i += 1;
    }
    assert(commits.take(commits.len() as int) =~= commits);
    n
}

/// The environment of the results.
#[derive(Debug)]
pub struct EnvSummary {
    pub os: String,
    pub arch: String,
    pub cpu_count: u64,
    pub rustc: String,
}

/// Whether `c` is the commit that most results have: a real one, and of equally frequent ones the
/// last in text order.
pub open spec fn is_main_commit(commits: Seq<Seq<char>>, c: Seq<char>) -> bool {
    &&& commits.contains(c)
    &&& !is_placeholder(c)
    &&& forall|d: Seq<char>| #[trigger]
        commits.contains(d) && !is_placeholder(d) && d != c ==> occurrences(commits, d)
            < occurrences(commits, c) || (occurrences(commits, d) == occurrences(commits, c)
            && text_less(d, c))
}

/// Whether the record at `at` stands for the environment: the first one of the main commit, or
/// where no commit is known the first one.
pub open spec fn is_env_record(commits: Seq<Seq<char>>, at: int) -> bool {
    &&& 0 <= at < commits.len()
    &&& if exists|c: Seq<char>| commits.contains(c) && !is_placeholder(c) {
        is_main_commit(commits, commits[at]) && forall|k: int|
            0 <= k < at ==> #[trigger] commits[k] != commits[at]
    } else {
        at == 0
    }
}

/// There is only one such record.
pub proof fn law_env_record_unique(commits: Seq<Seq<char>>, a: int, b: int)
    requires
        is_env_record(commits, a),
        is_env_record(commits, b),
    ensures
        a == b,
{
    if exists|c: Seq<char>| commits.contains(c) && !is_placeholder(c) {
        assert(commits.contains(commits[a]) && commits.contains(commits[b]));
        lemma_text_less_total(commits[a], commits[b]);
        lemma_text_less_total(commits[b], commits[a]);
        assert(commits[a] == commits[b]);
    }
}

/// The environment that the report names.
pub fn pick_env(records: &Vec<RunRecord>) -> (env: Result<EnvSummary, ReportError>)
    ensures
        match env {
            Ok(e) => exists|at: int| #[trigger]
                is_env_record(commits_of(records@), at) && {
                    let meta = records@[at].result.meta;
                    e.os@ == meta.os@ && e.arch@ == meta.arch@ && e.cpu_count == meta.cpu_count
                        && e.rustc@ == meta.rustc@
                },
            Err(e) => e == ReportError::NoResults && records.len() == 0,
        },
        env is Err <==> records.len() == 0,
{
    if records.len() == 0 {
        return Err(ReportError::NoResults);
    }
    let ghost commits = commits_of(records@);
    let mut best: Option<usize> = None;
    let mut i: usize = 0;
    while i < records.len()
        invariant
            i <= records.len(),
            commits == commits_of(records@),
            match best {
                Some(b) => b < i && !is_placeholder(commits[b as int]) && (forall|k: int|
                    0 <= k < b ==> #[trigger] commits[k] != commits[b as int]) && (forall|k: int|
                    0 <= k < i && !is_placeholder(#[trigger] commits[k]) && commits[k]
                        != commits[b as int] ==> occurrences(commits, commits[k]) < occurrences(
                        commits,
                        commits[b as int],
                    ) || (occurrences(commits, commits[k]) == occurrences(
                        commits,
                        commits[b as int],
                    ) && text_less(commits[k], commits[b as int]))),
                None => forall|k: int| 0 <= k < i ==> is_placeholder(#[trigger] commits[k]),
            },
        decreases records.len() - i,
    {
        let commit = records[i].result.meta.git_commit.as_str();
        assert(commit@ == commits[i as int]);
        if !is_unknown_commit(commit) {
            match best {
                None => {
                    assert forall|k: int| 0 <= k < i implies #[trigger] commits[k]
                        != commits[i as int] by {
                        assert(is_placeholder(commits[k]));
                    }
                    best = Some(i);
                },
                Some(b) => {
                    let rival = records[b].result.meta.git_commit.as_str();
                    assert(rival@ == commits[b as int]);
                    let n: u64 = count_commit(records, commit);
                    let m: u64 = count_commit(records, rival);
                    if !text_eq(commit, rival) {
                        if n > m || (n == m && text_lt(rival, commit)) {
                            proof {
                                assert forall|k: int|
                                    0 <= k < i + 1 && !is_placeholder(#[trigger] commits[k])
                                        && commits[k] != commits[i as int] implies occurrences(
                                    commits,
                                    commits[k],
                                ) < occurrences(commits, commits[i as int]) || (occurrences(
                                    commits,
                                    commits[k],
                                ) == occurrences(commits, commits[i as int]) && text_less(
                                    commits[k],
                                    commits[i as int],
                                )) by {
                                    if commits[k] != commits[b as int] && text_less(
                                        commits[k],
                                        commits[b as int],
                                    ) && text_less(commits[b as int], commits[i as int]) {
                                        crate::text::lemma_text_less_trans(
                                            commits[k],
                                            commits[b as int],
                                            commits[i as int],
                                        );
                                    }
                                }
                                assert forall|k: int| 0 <= k < i implies #[trigger] commits[k]
                                    != commits[i as int] by {
                                    if commits[k] == commits[i as int] {
                                        lemma_text_less_total(commits[b as int], commits[k]);
                                    }
                                }
                            }
                            best = Some(i);
                        } else {
                            proof {
                                lemma_text_less_total(commits[b as int], commits[i as int]);
                            }
                        }
                    }
                },
            }
        }
        i += 1;
    }
    let at: usize = match best {
        Some(b) => b,
        None => 0,
    };
    proof {
        match best {
            Some(b) => {
                assert(commits.contains(commits[b as int]));
                assert forall|d: Seq<char>| #[trigger]
                    commits.contains(d) && !is_placeholder(d) && d != commits[b as int] implies
                occurrences(commits, d) < occurrences(commits, commits[b as int]) || (occurrences(
                    commits,
                    d,
                ) == occurrences(commits, commits[b as int]) && text_less(
                    d,
                    commits[b as int],
                )) by {
                    let k = choose|k: int| 0 <= k < commits.len() && commits[k] == d;
                    assert(!is_placeholder(commits[k]));
                }
                assert(is_main_commit(commits, commits[b as int]));
            },
            None => {
                assert forall|c: Seq<char>| commits.contains(c) implies is_placeholder(c) by {
                    let k = choose|k: int| 0 <= k < commits.len() && commits[k] == c;
                    assert(is_placeholder(commits[k]));
                }
            },
        }
        assert(is_env_record(commits, at as int));
    }
    let meta = &records[at].result.meta;
    Ok(
        EnvSummary {
            os: meta.os.clone(),
            arch: meta.arch.clone(),
            cpu_count: meta.cpu_count,
            rustc: meta.rustc.clone(),
        },
    )
}

/// The commits of a report: the main one, and all with how many results they have.
#[derive(Debug)]
pub struct CommitSummary {
    pub primary: String,
    pub all: Vec<(String, u64)>,
}

/// The contents of a list of commits with their counts.
pub open spec fn counts_view(all: Seq<(String, u64)>) -> Seq<(Seq<char>, nat)> {
    Seq::new(all.len(), |i: int| (all[i].0@, all[i].1 as nat))
}

/// Each commit once, with its count, in the order of first occurrence.
pub open spec fn commit_counts(commits: Seq<Seq<char>>) -> Seq<(Seq<char>, nat)> {
    Seq::new(
        distinct(commits).len(),
        |i: int| (distinct(commits)[i], occurrences(commits, distinct(commits)[i])),
    )
}

/// More frequent commits come first, equally frequent ones in text order.
pub open spec fn more_frequent() -> spec_fn((Seq<char>, nat), (Seq<char>, nat)) -> bool {
    |a: (Seq<char>, nat), b: (Seq<char>, nat)|
        a.1 > b.1 || (a.1 == b.1 && text_less(a.0, b.0))
}

/// All commits, the most frequent first.
pub open spec fn ranked_commits(commits: Seq<Seq<char>>) -> Seq<(Seq<char>, nat)> {
    stable_sort(commit_counts(commits), more_frequent())
}

/// The first real commit of a list.
pub open spec fn first_known(all: Seq<(Seq<char>, nat)>) -> Seq<char>
    decreases all.len(),
{
    if all.len() == 0 {
        "unknown"@
    } else if !is_placeholder(all[0].0) {
        all[0].0
    } else {
        first_known(all.drop_first())
    }
}

fn distinct_commits(records: &Vec<RunRecord>) -> (out: Vec<String>)
    ensures
        views(out@) == distinct(commits_of(records@)),
{
    let ghost commits = commits_of(records@);
    let mut out: Vec<String> = Vec::new();
    let mut i: usize = 0;
    assert(commits.take(0) =~= Seq::<Seq<char>>::empty());
    assert(views(out@) =~= Seq::<Seq<char>>::empty());
    while i < records.len()
        invariant
            i <= records.len(),
            commits == commits_of(records@),
            views(out@) == distinct(commits.take(i as int)),
        decreases records.len() - i,
    {
        let commit = &records[i].result.meta.git_commit;
        assert(commits.take(i as int + 1).drop_last() =~= commits.take(i as int));
        if !list_contains(&out, commit.as_str()) {
            proof {
                lemma_views_push(out@, *commit);
            }
            out.push(commit.clone());
        }
        i += 1;
    }
    assert(commits.take(commits.len() as int) =~= commits);
    out
}

fn comes_first(a: &(String, u64), b: &(String, u64)) -> (yes: bool)
    ensures
        yes == more_frequent()((a.0@, a.1 as nat), (b.0@, b.1 as nat)),
{
    a.1 > b.1 || (a.1 == b.1 && text_lt(a.0.as_str(), b.0.as_str()))
}

/// The commits of the results.
pub fn summarize_result_commits(records: &Vec<RunRecord>) -> (summary: CommitSummary)
    ensures
        counts_view(summary.all@) == ranked_commits(commits_of(records@)),
        summary.primary@ == first_known(ranked_commits(commits_of(records@))),
{
    let ghost commits = commits_of(records@);
    let ghost counts = commit_counts(commits);
    let names = distinct_commits(records);
    let mut all: Vec<(String, u64)> = Vec::new();
    let mut i: usize = 0;
    assert(counts.take(0) =~= Seq::<(Seq<char>, nat)>::empty());
    assert(counts_view(all@) =~= Seq::<(Seq<char>, nat)>::empty());
    while i < names.len()
        invariant
            i <= names.len(),
            commits == commits_of(records@),
            counts == commit_counts(commits),
            views(names@) == distinct(commits),
            counts_view(all@) == counts.take(i as int),
        decreases names.len() - i,
    {
        let n: u64 = count_commit(records, names[i].as_str());
        assert(views(names@)[i as int] == names@[i as int]@);
        let ghost earlier = counts_view(all@);
        all.push((names[i].clone(), n));
        assert(counts_view(all@) =~= earlier.push(counts[i as int]));
        i += 1;
        assert(counts_view(all@) =~= counts.take(i as int));
    }
    let ghost view = |entry: (String, u64)| (entry.0@, entry.1 as nat);
    assert(counts.take(counts.len() as int) =~= counts);
    assert(all@.map_values(view) =~= counts_view(all@));
    sort_by::<(String, u64), (Seq<char>, nat), _>(&mut all, comes_first, Ghost(view), Ghost(more_frequent()));
    assert(all@.map_values(view) =~= counts_view(all@));
    let mut j: usize = 0;
    let ghost ranked = counts_view(all@);
    assert(ranked.skip(0) =~= ranked);
    while j < all.len()
        invariant
            j <= all.len(),
            ranked == counts_view(all@),
            first_known(ranked) == first_known(ranked.skip(j as int)),
            ranked == ranked_commits(commits_of(records@)),
        decreases all.len() - j,
    {
        assert(ranked.skip(j as int)[0] == (all@[j as int].0@, all@[j as int].1 as nat));
        if !is_unknown_commit(all[j].0.as_str()) {
            let primary = all[j].0.clone();
            return CommitSummary { primary, all };
        }
        assert(ranked.skip(j as int).drop_first() =~= ranked.skip(j as int + 1));
        j += 1;
    }
    CommitSummary { primary: "unknown".to_owned(), all }
}

/// The pieces of a commit list: the first three commits, and how many more there are.
pub open spec fn commit_parts(all: Seq<(Seq<char>, nat)>) -> Seq<Seq<char>> {
    let shown = if all.len() > 3 {
        3
    } else {
        all.len()
    };
    let parts = Seq::new(shown, |i: int| all[i].0 + " ("@ + decimal(all[i].1) + ")"@);
    if all.len() > 3 {
        parts.push("+ "@ + decimal((all.len() - 3) as nat) + " more"@)
    } else {
        parts
    }
}

/// The commits as text.
pub fn format_commit_summary(all: &Vec<(String, u64)>) -> (out: String)
    ensures
        out@ == joined(commit_parts(counts_view(all@)), ", "@),
{
    let ghost counts = counts_view(all@);
    let mut parts: Vec<String> = Vec::new();
    let shown: usize = if all.len() > 3 {
        3
    } else {
        all.len()
    };
    let ghost wanted = Seq::new(
        shown as nat,
        |i: int| counts[i].0 + " ("@ + decimal(counts[i].1) + ")"@,
    );
    let mut i: usize = 0;
    assert(views(parts@) =~= wanted.take(0));
    while i < shown
        invariant
            i <= shown <= all.len(),
            counts == counts_view(all@),
            wanted == Seq::new(
                shown as nat,
                |i: int| counts[i].0 + " ("@ + decimal(counts[i].1) + ")"@,
            ),
            views(parts@) == wanted.take(i as int),
        decreases shown - i,
    {
        let mut part = all[i].0.clone();
        part.append(" (");
        push_decimal(&mut part, all[i].1 as u128);
        part.append(")");
        proof {
            lemma_views_push(parts@, part);
            assert(part@ == wanted[i as int]);
            assert(wanted.take(i as int + 1) =~= wanted.take(i as int).push(part@));
        }
        parts.push(part);
        i += 1;
    }
    assert(wanted.take(shown as int) =~= wanted);
    if all.len() > 3 {
        let mut part = "+ ".to_owned();
        push_decimal(&mut part, (all.len() - 3) as u128);
        part.append(" more");
        proof {
            lemma_views_push(parts@, part);
        }
        parts.push(part);
    }
    assert(views(parts@) =~= commit_parts(counts));
    join(&parts, ", ")
}

} // verus!
