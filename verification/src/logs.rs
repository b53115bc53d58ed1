//! Where the demo's log files are, and what of a log is shown.
use vstd::prelude::*;

use crate::state_layout::{join_path, path_join};
use crate::text::{chars_of, extend_chars, join, join_texts, lines_of, string_of, text, text_lines, texts_of};

verus! {

/// The log files of a service, in the order they are preferred:
/// `<service>.log`, `<service>-<tenant>.log`, `<service>.<tenant>.log`.
pub open spec fn log_candidate_paths(log_dir: Seq<char>, service: Seq<char>, tenant: Seq<char>) -> Seq<
    Seq<char>,
> {
    seq![
        path_join(log_dir, service + ".log"@),
        path_join(log_dir, service + "-"@ + tenant + ".log"@),
        path_join(log_dir, service + "."@ + tenant + ".log"@),
    ]
}

fn joined(a: &str, b: &str, c: &str, d: &str) -> (r: String)
    ensures
        r@ == a@ + b@ + c@ + d@,
{
    let mut v = chars_of(a);
    extend_chars(&mut v, b);
    extend_chars(&mut v, c);
    extend_chars(&mut v, d);
    string_of(v.as_slice())
}

/// The candidate log files of a service, most preferred first.
pub fn log_candidates(log_dir: &str, service: &str, tenant: &str) -> (r: Vec<String>)
    ensures
        texts_of(r@) == log_candidate_paths(log_dir@, service@, tenant@),
{
    let first = joined(service, ".log", "", "");
    let second = joined(service, "-", tenant, ".log");
    let third = joined(service, ".", tenant, ".log");
    proof {
        reveal_strlit("");
        assert(first@ =~= service@ + ".log"@);
    }
    let mut r: Vec<String> = Vec::new();
    r.push(join_path(log_dir, first.as_str()));
    r.push(join_path(log_dir, second.as_str()));
    r.push(join_path(log_dir, third.as_str()));
    proof {
        assert(texts_of(r@) =~= log_candidate_paths(log_dir@, service@, tenant@));
    }
    r
}

/// A tenant's log file of a service: `<log dir>/<tenant>.<team>/<service>.log`.
pub fn tenant_log_file(log_dir: &str, service: &str, tenant: &str, team: &str) -> (r: String)
    ensures
        r@ == path_join(path_join(log_dir@, tenant@ + "."@ + team@), service@ + ".log"@),
{
    let dir_name = joined(tenant, ".", team, "");
    let file_name = joined(service, ".log", "", "");
    proof {
        reveal_strlit("");
        assert(dir_name@ =~= tenant@ + "."@ + team@);
        assert(file_name@ =~= service@ + ".log"@);
    }
    let dir = join_path(log_dir, dir_name.as_str());
    join_path(dir.as_str(), file_name.as_str())
}

/// The first candidate that exists, else the tenant's log.
pub fn choose_log_path(candidates: &Vec<String>, exists: &Vec<bool>, tenant_log: &str) -> (r: String)
    requires
        exists@.len() == candidates@.len(),
    ensures
        match choose_existing(exists@) {
            Some(i) => r@ == candidates@[i]@,
            None => r@ == tenant_log@,
        },
{
    let mut i: usize = 0;
    while i < candidates.len()
        invariant
            exists@.len() == candidates@.len(),
            i <= candidates@.len(),
            forall|j: int| 0 <= j < i ==> !exists@[j],
        decreases candidates@.len() - i,
    {
        if exists[i] {
            proof {
                lemma_choose_existing_at(exists@, i as int);
            }
            return candidates[i].clone();
        }
        i += 1;
    }
    proof {
        lemma_choose_existing_none(exists@);
    }
    text(tenant_log)
}

/// The position of the first `true`.
pub open spec fn choose_existing(flags: Seq<bool>) -> Option<int>
    decreases flags.len(),
{
    if flags.len() == 0 {
        None
    } else if flags[0] {
        Some(0)
    } else {
        match choose_existing(flags.drop_first()) {
            Some(i) => Some(i + 1),
            None => None,
        }
    }
}

proof fn lemma_choose_existing_at(flags: Seq<bool>, i: int)
    requires
        0 <= i < flags.len(),
        flags[i],
        forall|j: int| 0 <= j < i ==> !flags[j],
    ensures
        choose_existing(flags) == Some(i),
    decreases i,
{
    if i > 0 {
        lemma_choose_existing_at(flags.drop_first(), i - 1);
    }
}

proof fn lemma_choose_existing_none(flags: Seq<bool>)
    requires
        forall|j: int| 0 <= j < flags.len() ==> !flags[j],
    ensures
        choose_existing(flags) is None,
    decreases flags.len(),
{
    if flags.len() > 0 {
        lemma_choose_existing_none(flags.drop_first());
    }
}

/// The last `count` lines of a text (all of them when there are fewer).
pub open spec fn last_of(lines: Seq<Seq<char>>, count: nat) -> Seq<Seq<char>> {
    if lines.len() > count {
        lines.skip(lines.len() - count)
    } else {
        lines
    }
}

/// The last `count` lines of a log's contents, joined by line feeds.
pub fn last_lines(contents: &str, count: usize) -> (r: String)
    ensures
        r@ == join_texts(last_of(text_lines(contents@), count as nat), "\n"@),
{
    let lines = lines_of(contents);
    let n = lines.len();
    let mut kept: Vec<String> = Vec::new();
    let start = if n > count {
        n - count
    } else {
        0
    };
    let mut i = start;
    while i < n
        invariant
            n == lines@.len(),
            start <= i <= n,
            texts_of(kept@) == texts_of(lines@).subrange(start as int, i as int),
        decreases n - i,
    {
        let ghost before = texts_of(kept@);
        kept.push(lines[i].clone());
        proof {
            assert(texts_of(kept@) =~= before.push(lines@[i as int]@));
            assert(texts_of(lines@)[i as int] == lines@[i as int]@);
            assert(texts_of(lines@).subrange(start as int, i + 1) =~= texts_of(lines@).subrange(
                start as int,
                i as int,
            ).push(lines@[i as int]@));
        }
        i += 1;
    }
    proof {
        let all = text_lines(contents@);
        assert(texts_of(lines@) == all);
        if n > count {
            assert(all.subrange(start as int, n as int) =~= all.skip(all.len() - count));
        } else {
            assert(all.subrange(0, n as int) =~= all);
        }
    }
    join(&kept, "\n")
}

} // verus!
