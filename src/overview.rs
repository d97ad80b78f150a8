//! The resource aggregator: job-state counters, per-user statistics and
//! per-partition GPU allocation against inventory capacity.
use vstd::prelude::*;

use crate::gres::{job_gpu_count, job_gpus};
use crate::inventory::NodeCapacity;
use crate::order::{
    chars_lt, lemma_name_lt_irreflexive, lemma_name_lt_total,
    lemma_name_lt_transitive, name_lt,
};
use crate::schema::{Job, PARTITION_FIELD, STATE_FIELD, TRES_FIELD, USERNAME_FIELD};
use crate::text::{chars_of, string_of};

verus! {

/// Per-user statistics over one set of records.
#[derive(Clone, Debug)]
pub struct UserStats {
    pub name: String,
    pub running_jobs: u32,
    pub pending_jobs: u32,
    pub gpus_used: u32,
}

/// GPU allocation and capacity of one partition.
#[derive(Clone, Debug)]
pub struct PartitionInfo {
    pub name: String,
    pub gpus_alloc: u32,
    pub gpus_total: u32,
}

/// A snapshot of the cluster built from one set of records and one
/// inventory listing.
#[derive(Clone, Debug)]
pub struct ClusterOverview {
    pub jobs_running: u32,
    pub jobs_pending: u32,
    pub jobs_completing: u32,
    pub partitions: Vec<PartitionInfo>,
    pub user_stats: Vec<UserStats>,
}

pub open spec fn running() -> Seq<char> {
    seq!['R', 'U', 'N', 'N', 'I', 'N', 'G']
}

pub open spec fn pending() -> Seq<char> {
    seq!['P', 'E', 'N', 'D', 'I', 'N', 'G']
}

pub open spec fn completing() -> Seq<char> {
    seq!['C', 'O', 'M', 'P', 'L', 'E', 'T', 'I', 'N', 'G']
}

/// A count held in a `u32` counter that stops at `u32::MAX`.
pub open spec fn clamp(n: nat) -> nat {
    if n <= u32::MAX {
        n
    } else {
        u32::MAX as nat
    }
}

/// The number of records in state `st`.
pub open spec fn count_state(jobs: Seq<Seq<Seq<char>>>, st: Seq<char>) -> nat
    decreases jobs.len(),
{
    if jobs.len() == 0 {
        0
    } else {
        count_state(jobs.drop_last(), st) + if jobs.last()[STATE_FIELD as int] == st {
            1nat
        } else {
            0nat
        }
    }
}

/// The number of records of user `u` in state `st`.
pub open spec fn user_count(jobs: Seq<Seq<Seq<char>>>, u: Seq<char>, st: Seq<char>) -> nat
    decreases jobs.len(),
{
    if jobs.len() == 0 {
        0
    } else {
        user_count(jobs.drop_last(), u, st) + if jobs.last()[USERNAME_FIELD as int] == u
            && jobs.last()[STATE_FIELD as int] == st {
            1nat
        } else {
            0nat
        }
    }
}

/// The GPUs used by the running records of user `u`.
pub open spec fn user_gpus(jobs: Seq<Seq<Seq<char>>>, u: Seq<char>) -> nat
    decreases jobs.len(),
{
    if jobs.len() == 0 {
        0
    } else {
        user_gpus(jobs.drop_last(), u) + if jobs.last()[USERNAME_FIELD as int] == u
            && jobs.last()[STATE_FIELD as int] == running() {
            job_gpus(jobs.last()[TRES_FIELD as int])
        } else {
            0nat
        }
    }
}

/// Whether some record belongs to user `u`.
pub open spec fn has_user(jobs: Seq<Seq<Seq<char>>>, u: Seq<char>) -> bool {
    exists|i: int| 0 <= i < jobs.len() && #[trigger] jobs[i][USERNAME_FIELD as int] == u
}

/// Whether the statistics in `e` are those of its user over `jobs`.
pub open spec fn user_entry_ok(e: UserStats, jobs: Seq<Seq<Seq<char>>>) -> bool {
    &&& has_user(jobs, e.name@)
    &&& e.running_jobs == clamp(user_count(jobs, e.name@, running()))
    &&& e.pending_jobs == clamp(user_count(jobs, e.name@, pending()))
    &&& e.gpus_used == clamp(user_gpus(jobs, e.name@))
}

/// The display order of user statistics: more GPUs first, then by name.
pub open spec fn user_before(a: UserStats, b: UserStats) -> bool {
    a.gpus_used > b.gpus_used || (a.gpus_used == b.gpus_used && name_lt(a.name@, b.name@))
}

/// Whether the entries of `s` have pairwise different names.
pub open spec fn distinct_users(s: Seq<UserStats>) -> bool {
    forall|a: int, b: int| 0 <= a < s.len() && 0 <= b < s.len() && a != b ==> s[a].name@ != s[b].name@
}

/// Whether `s` has an entry for user `u`.
pub open spec fn has_entry(s: Seq<UserStats>, u: Seq<char>) -> bool {
    exists|k: int| 0 <= k < s.len() && #[trigger] s[k].name@ == u
}

/// Whether every user of `jobs` has an entry in `s`.
pub open spec fn covers_users(s: Seq<UserStats>, jobs: Seq<Seq<Seq<char>>>) -> bool {
    forall|i: int| 0 <= i < jobs.len() ==> has_entry(s, #[trigger] jobs[i][USERNAME_FIELD as int])
}

/// Whether `s` is the user statistics of `jobs`: one entry per user, with
/// that user's counts, in display order.
pub open spec fn user_stats_of(s: Seq<UserStats>, jobs: Seq<Seq<Seq<char>>>) -> bool {
    &&& forall|k: int| 0 <= k < s.len() ==> user_entry_ok(#[trigger] s[k], jobs)
    &&& covers_users(s, jobs)
    &&& distinct_users(s)
    &&& users_sorted(s)
}

proof fn lemma_absent_user(jobs: Seq<Seq<Seq<char>>>, u: Seq<char>)
    requires
        !has_user(jobs, u),
    ensures
        user_count(jobs, u, running()) == 0,
        user_count(jobs, u, pending()) == 0,
        user_gpus(jobs, u) == 0,
    decreases jobs.len(),
{
    if jobs.len() > 0 {
        let init = jobs.drop_last();
        assert(!has_user(init, u)) by {
            if has_user(init, u) {
                let i = choose|i: int| 0 <= i < init.len() && #[trigger] init[i][USERNAME_FIELD as int] == u;
                assert(jobs[i] == init[i]);
            }
        }
        assert(jobs[jobs.len() - 1] == jobs.last());
        lemma_absent_user(init, u);
    }
}

/// A copy of a counter entry.
fn copy_user(e: &UserStats) -> (r: UserStats)
    ensures
        r == *e,
{
    UserStats {
        name: e.name.clone(),
        running_jobs: e.running_jobs,
        pending_jobs: e.pending_jobs,
        gpus_used: e.gpus_used,
    }
}

/// Whether the string `s` holds exactly the characters `c`.
fn string_is(s: &String, c: &String) -> (r: bool)
    ensures
        r == (s@ == c@),
{
    *s == *c
}

/// The job-state counters: records running, pending and completing.
pub fn count_states(jobs: &Vec<Job>) -> (r: (u32, u32, u32))
    ensures
        r.0 == clamp(count_state(jobs@.map_values(|j: Job| j@), running())),
        r.1 == clamp(count_state(jobs@.map_values(|j: Job| j@), pending())),
        r.2 == clamp(count_state(jobs@.map_values(|j: Job| j@), completing())),
{
    let ghost views = jobs@.map_values(|j: Job| j@);
    let run = string_of(vec!['R', 'U', 'N', 'N', 'I', 'N', 'G'].as_slice());
    let pend = string_of(vec!['P', 'E', 'N', 'D', 'I', 'N', 'G'].as_slice());
    let comp = string_of(vec!['C', 'O', 'M', 'P', 'L', 'E', 'T', 'I', 'N', 'G'].as_slice());
    assert(run@ =~= running());
    assert(pend@ =~= pending());
    assert(comp@ =~= completing());
    let mut r: u32 = 0;
    let mut p: u32 = 0;
    let mut c: u32 = 0;
    let mut i: usize = 0;
    while i < jobs.len()
        invariant
            i <= jobs.len(),
            views == jobs@.map_values(|j: Job| j@),
            run@ == running(),
            pend@ == pending(),
            comp@ == completing(),
            r == clamp(count_state(views.take(i as int), running())),
            p == clamp(count_state(views.take(i as int), pending())),
            c == clamp(count_state(views.take(i as int), completing())),
        decreases jobs.len() - i,
    {
        proof {
            assert(views.take(i + 1).drop_last() =~= views.take(i as int));
            assert(views.take(i + 1).last() == jobs@[i as int]@);
        }
        if string_is(&jobs[i].State, &run) {
            r = r.saturating_add(1);
        } else if string_is(&jobs[i].State, &pend) {
            p = p.saturating_add(1);
        } else if string_is(&jobs[i].State, &comp) {
            c = c.saturating_add(1);
        }
        i = i + 1;
    }
    assert(views.take(jobs.len() as int) =~= views);
    (r, p, c)
}

/// Per-user statistics over `jobs`, one entry per user, in no particular order.
fn collect_users(jobs: &Vec<Job>) -> (r: Vec<UserStats>)
    ensures
        forall|k: int| 0 <= k < r.len() ==> user_entry_ok(#[trigger] r@[k], jobs@.map_values(|j: Job| j@)),
        covers_users(r@, jobs@.map_values(|j: Job| j@)),
        distinct_users(r@),
{
    let ghost views = jobs@.map_values(|j: Job| j@);
    let run = string_of(vec!['R', 'U', 'N', 'N', 'I', 'N', 'G'].as_slice());
    let pend = string_of(vec!['P', 'E', 'N', 'D', 'I', 'N', 'G'].as_slice());
    assert(run@ =~= running());
    assert(pend@ =~= pending());
    let mut stats: Vec<UserStats> = Vec::new();
    let mut i: usize = 0;
    while i < jobs.len()
        invariant
            i <= jobs.len(),
            views == jobs@.map_values(|j: Job| j@),
            run@ == running(),
            pend@ == pending(),
            forall|k: int| 0 <= k < stats.len() ==> user_entry_ok(#[trigger] stats@[k], views.take(i as int)),
            covers_users(stats@, views.take(i as int)),
            distinct_users(stats@),
        decreases jobs.len() - i,
    {
        let ghost before = views.take(i as int);
        let ghost after = views.take(i + 1);
        let ghost job = views[i as int];
        let ghost old_stats = stats@;
        proof {
            assert(after.drop_last() =~= before);
            assert(after.last() == job);
            assert(job == jobs@[i as int]@);
        }
        let user = &jobs[i].UserName;
        let is_running = string_is(&jobs[i].State, &run);
        let is_pending = string_is(&jobs[i].State, &pend);
        let gpus: u32 = if is_running {
            job_gpu_count(jobs[i].TRES.as_str())
        } else {
            0
        };
        let mut k: usize = 0;
        while k < stats.len() && !string_is(&stats[k].name, user)
            invariant
                k <= stats.len(),
                forall|m: int| 0 <= m < k ==> stats@[m].name@ != user@,
            decreases stats.len() - k,
        {
            k = k + 1;
        }
        proof {
            // entries of other users keep their statistics
            assert forall|m: int| 0 <= m < stats.len() && stats@[m].name@ != user@ implies user_entry_ok(
                #[trigger] stats@[m],
                after,
            ) by {
                let e = stats@[m];
                assert(user_entry_ok(e, before));
                let w = choose|w: int| 0 <= w < before.len() && #[trigger] before[w][USERNAME_FIELD as int] == e.name@;
                assert(after[w] == before[w]);
            }
        }
        if k < stats.len() {
            let ghost e = stats@[k as int];
            proof {
                assert(user_entry_ok(e, before));
                let w = choose|w: int| 0 <= w < before.len() && #[trigger] before[w][USERNAME_FIELD as int] == e.name@;
                assert(after[w] == before[w]);
            }
            let name = stats[k].name.clone();
            let entry = UserStats {
                name,
                running_jobs: if is_running {
                    stats[k].running_jobs.saturating_add(1)
                } else {
                    stats[k].running_jobs
                },
                pending_jobs: if is_pending {
                    stats[k].pending_jobs.saturating_add(1)
                } else {
                    stats[k].pending_jobs
                },
                gpus_used: stats[k].gpus_used.saturating_add(gpus),
            };
            stats.set(k, entry);
            proof {
                assert(user_entry_ok(stats@[k as int], after));
                assert forall|w: int| 0 <= w < after.len() implies has_entry(stats@, #[trigger] after[w][USERNAME_FIELD as int]) by {
                    if w < before.len() {
                        assert(after[w] == before[w]);
                        assert(has_entry(old_stats, before[w][USERNAME_FIELD as int]));
                        let m = choose|m: int| 0 <= m < old_stats.len() && #[trigger] old_stats[m].name@
                            == before[w][USERNAME_FIELD as int];
                        assert(stats@[m].name@ == old_stats[m].name@);
                    } else {
                        assert(stats@[k as int].name@ == after[w][USERNAME_FIELD as int]);
                    }
                }
            }
        } else {
            proof {
                assert(!has_user(before, user@)) by {
                    if has_user(before, user@) {
                        let w = choose|w: int| 0 <= w < before.len() && #[trigger] before[w][USERNAME_FIELD as int] == user@;
                        assert(has_entry(stats@, before[w][USERNAME_FIELD as int]));
                    }
                }
                lemma_absent_user(before, user@);
            }
            let entry = UserStats {
                name: user.clone(),
                running_jobs: if is_running {
                    1
                } else {
                    0
                },
                pending_jobs: if is_pending {
                    1
                } else {
                    0
                },
                gpus_used: gpus,
            };
            stats.push(entry);
            proof {
                assert(has_user(after, user@)) by {
                    assert(after[i as int][USERNAME_FIELD as int] == user@);
                }
                assert(user_entry_ok(stats@[k as int], after));
                assert forall|w: int| 0 <= w < after.len() implies has_entry(stats@, #[trigger] after[w][USERNAME_FIELD as int]) by {
                    if w < before.len() {
                        assert(after[w] == before[w]);
                        assert(has_entry(old_stats, before[w][USERNAME_FIELD as int]));
                        let m = choose|m: int| 0 <= m < old_stats.len() && #[trigger] old_stats[m].name@
                            == before[w][USERNAME_FIELD as int];
                        assert(stats@[m] == old_stats[m]);
                    } else {
                        assert(stats@[k as int].name@ == after[w][USERNAME_FIELD as int]);
                    }
                }
            }
        }
        i = i + 1;
    }
    assert(views.take(jobs.len() as int) =~= views);
    stats
}

proof fn lemma_user_before_total(a: UserStats, b: UserStats)
    requires
        a.name@ != b.name@,
    ensures
        user_before(a, b) || user_before(b, a),
{
    lemma_name_lt_total(a.name@, b.name@);
}

proof fn lemma_user_before_transitive(a: UserStats, b: UserStats, c: UserStats)
    requires
        user_before(a, b),
        user_before(b, c),
    ensures
        user_before(a, c),
{
    if a.gpus_used == b.gpus_used && b.gpus_used == c.gpus_used {
        lemma_name_lt_transitive(a.name@, b.name@, c.name@);
    }
}

/// Whether `a` comes before `b` in display order.
fn user_before_exec(a: &UserStats, b: &UserStats) -> (r: bool)
    ensures
        r == user_before(*a, *b),
{
    if a.gpus_used != b.gpus_used {
        a.gpus_used > b.gpus_used
    } else {
        let x = chars_of(a.name.as_str());
        let y = chars_of(b.name.as_str());
        chars_lt(x.as_slice(), y.as_slice())
    }
}

/// Whether the entries of `s` are in display order.
pub open spec fn users_sorted(s: Seq<UserStats>) -> bool {
    forall|a: int, b: int| 0 <= a < b < s.len() ==> user_before(#[trigger] s[a], #[trigger] s[b])
}

proof fn lemma_insert_user(s: Seq<UserStats>, e: UserStats, p: int)
    requires
        0 <= p <= s.len(),
        distinct_users(s),
        users_sorted(s),
        forall|k: int| 0 <= k < s.len() ==> (#[trigger] s[k]).name@ != e.name@,
        forall|q: int| 0 <= q < p ==> !user_before(e, #[trigger] s[q]),
        p < s.len() ==> user_before(e, s[p]),
    ensures
        distinct_users(s.insert(p, e)),
        users_sorted(s.insert(p, e)),
{
    let o = s.insert(p, e);
    assert forall|a: int, b: int| 0 <= a < b < o.len() implies user_before(#[trigger] o[a], #[trigger] o[b]) by {
        if a < p && b < p {
            assert(o[a] == s[a] && o[b] == s[b]);
        } else if a < p && b == p {
            lemma_user_before_total(s[a], e);
        } else if a < p {
            assert(o[a] == s[a] && o[b] == s[b - 1]);
        } else if a == p {
            assert(user_before(e, s[p]));
            if b - 1 > p {
                lemma_user_before_transitive(e, s[p], s[b - 1]);
            }
        } else {
            assert(o[a] == s[a - 1] && o[b] == s[b - 1]);
        }
    }
    assert forall|a: int, b: int| 0 <= a < o.len() && 0 <= b < o.len() && a != b implies o[a].name@ != o[b].name@ by {
        if a != p && b != p {
            let a0 = if a < p { a } else { a - 1 };
            let b0 = if b < p { b } else { b - 1 };
            assert(o[a] == s[a0] && o[b] == s[b0]);
        } else if a == p {
            let b0 = if b < p { b } else { b - 1 };
            assert(o[b] == s[b0]);
        } else {
            let a0 = if a < p { a } else { a - 1 };
            assert(o[a] == s[a0]);
        }
    }
}

proof fn lemma_fresh_name(orig: Seq<UserStats>, out: Seq<UserStats>, n: int)
    requires
        0 < n <= orig.len(),
        distinct_users(orig),
        out.to_multiset() == orig.skip(n).to_multiset(),
    ensures
        forall|k: int| 0 <= k < out.len() ==> (#[trigger] out[k]).name@ != orig[n - 1].name@,
{
    broadcast use vstd::seq_lib::to_multiset_contains;

    assert forall|k: int| 0 <= k < out.len() implies (#[trigger] out[k]).name@ != orig[n - 1].name@ by {
        assert(out.contains(out[k]));
        assert(out.to_multiset().count(out[k]) > 0);
        assert(orig.skip(n).contains(out[k]));
        let j = choose|j: int| 0 <= j < orig.skip(n).len() && orig.skip(n)[j] == out[k];
        assert(orig[n + j] == out[k]);
    }
}

proof fn lemma_same_members(a: Seq<UserStats>, b: Seq<UserStats>)
    requires
        a.to_multiset() == b.to_multiset(),
    ensures
        forall|k: int| 0 <= k < a.len() ==> b.contains(#[trigger] a[k]),
        forall|k: int| 0 <= k < b.len() ==> a.contains(#[trigger] b[k]),
{
    broadcast use vstd::seq_lib::to_multiset_contains;

    assert forall|k: int| 0 <= k < a.len() implies b.contains(#[trigger] a[k]) by {
        assert(a.contains(a[k]));
        assert(a.to_multiset().count(a[k]) > 0);
    }
    assert forall|k: int| 0 <= k < b.len() implies a.contains(#[trigger] b[k]) by {
        assert(b.contains(b[k]));
        assert(b.to_multiset().count(b[k]) > 0);
    }
}

/// The entries of `stats` in display order: more GPUs first, then by name.
fn sort_users(stats: Vec<UserStats>) -> (r: Vec<UserStats>)
    requires
        distinct_users(stats@),
    ensures
        r@.to_multiset() == stats@.to_multiset(),
        distinct_users(r@),
        users_sorted(r@),
{
    broadcast use vstd::seq_lib::to_multiset_build, vstd::seq_lib::lemma_multiset_commutative;

    let ghost orig = stats@;
    let mut input = stats;
    let mut out: Vec<UserStats> = Vec::new();
    assert(orig.skip(orig.len() as int) =~= Seq::<UserStats>::empty());
    assert(out@ =~= Seq::<UserStats>::empty());
    while input.len() > 0
        invariant
            input.len() <= orig.len(),
            input@ == orig.take(input.len() as int),
            distinct_users(orig),
            out@.to_multiset() == orig.skip(input.len() as int).to_multiset(),
            distinct_users(out@),
            users_sorted(out@),
        decreases input.len(),
    {
        let ghost n = input.len() as int;
        let ghost old_out = out@;
        let e = input.pop().unwrap();
        proof {
            assert(e == orig[n - 1]);
            assert(input@ =~= orig.take(n - 1));
            lemma_fresh_name(orig, old_out, n);
        }
        let mut p: usize = 0;
        while p < out.len() && !user_before_exec(&e, &out[p])
            invariant
                p <= out.len(),
                out@ == old_out,
                forall|q: int| 0 <= q < p ==> !user_before(e, #[trigger] out@[q]),
            decreases out.len() - p,
        {
            p = p + 1;
        }
        out.insert(p, e);
        proof {
            lemma_insert_user(old_out, e, p as int);
            vstd::seq_lib::to_multiset_insert(old_out, p as int, e);
            let t = orig.skip(n);
            assert(orig.skip(n - 1) =~= seq![e] + t);
            vstd::seq_lib::lemma_seq_union_to_multiset_commutative(seq![e], t);
            assert(t + seq![e] =~= t.push(e));
            vstd::seq_lib::to_multiset_build(t, e);
            assert(out@.to_multiset() == old_out.to_multiset().insert(e));
            assert(out@.to_multiset() == t.push(e).to_multiset());
            assert(out@.to_multiset() == orig.skip(n - 1).to_multiset());
            assert(input.len() == n - 1);
        }
    }
    assert(orig.skip(0) =~= orig);
    out
}

/// Per-user statistics over `jobs`: one entry per user, ordered by GPUs
/// used (most first) and then by name.
pub fn user_stats(jobs: &Vec<Job>) -> (r: Vec<UserStats>)
    ensures
        user_stats_of(r@, jobs@.map_values(|j: Job| j@)),
{
    let ghost views = jobs@.map_values(|j: Job| j@);
    let stats = collect_users(jobs);
    let ghost unsorted = stats@;
    let r = sort_users(stats);
    proof {
        lemma_same_members(r@, unsorted);
        assert forall|k: int| 0 <= k < r.len() implies user_entry_ok(#[trigger] r@[k], views) by {
            assert(unsorted.contains(r@[k]));
            let m = choose|m: int| 0 <= m < unsorted.len() && unsorted[m] == r@[k];
            assert(user_entry_ok(unsorted[m], views));
        }
        assert forall|i: int| 0 <= i < views.len() implies has_entry(r@, #[trigger] views[i][USERNAME_FIELD as int]) by {
            assert(has_entry(unsorted, views[i][USERNAME_FIELD as int]));
            let m = choose|m: int| 0 <= m < unsorted.len() && #[trigger] unsorted[m].name@
                == views[i][USERNAME_FIELD as int];
            assert(r@.contains(unsorted[m]));
            let k = choose|k: int| 0 <= k < r.len() && r@[k] == unsorted[m];
            assert(r@[k].name@ == views[i][USERNAME_FIELD as int]);
        }
        assert(covers_users(r@, views));
        assert(distinct_users(r@));
        assert(users_sorted(r@));
    }
    r
}

/// The GPUs used by the running records on partition `p`.
pub open spec fn partition_alloc(jobs: Seq<Seq<Seq<char>>>, p: Seq<char>) -> nat
    decreases jobs.len(),
{
    if jobs.len() == 0 {
        0
    } else {
        partition_alloc(jobs.drop_last(), p) + if jobs.last()[PARTITION_FIELD as int] == p
            && jobs.last()[STATE_FIELD as int] == running() {
            job_gpus(jobs.last()[TRES_FIELD as int])
        } else {
            0nat
        }
    }
}

/// The GPU capacity that the inventory rows give to partition `p`.
pub open spec fn partition_total(rows: Seq<(Seq<char>, nat)>, p: Seq<char>) -> nat
    decreases rows.len(),
{
    if rows.len() == 0 {
        0
    } else {
        partition_total(rows.drop_last(), p) + if rows.last().0 == p {
            rows.last().1
        } else {
            0nat
        }
    }
}

/// Whether some inventory row names partition `p`.
pub open spec fn has_row(rows: Seq<(Seq<char>, nat)>, p: Seq<char>) -> bool {
    exists|i: int| 0 <= i < rows.len() && #[trigger] rows[i].0 == p
}

/// Whether `s` has an entry for partition `p`.
pub open spec fn has_partition(s: Seq<PartitionInfo>, p: Seq<char>) -> bool {
    exists|k: int| 0 <= k < s.len() && #[trigger] s[k].name@ == p
}

/// Whether the entries of `s` are in ascending name order, which also makes
/// their names distinct.
pub open spec fn partitions_sorted(s: Seq<PartitionInfo>) -> bool {
    forall|a: int, b: int| 0 <= a < b < s.len() ==> name_lt(#[trigger] s[a].name@, #[trigger] s[b].name@)
}

/// Whether `s` is the partition table for `jobs` and the inventory `rows`:
/// one entry per partition that the inventory names and no other, with its
/// capacity and allocation, in ascending name order.
pub open spec fn partitions_of(
    s: Seq<PartitionInfo>,
    jobs: Seq<Seq<Seq<char>>>,
    rows: Seq<(Seq<char>, nat)>,
) -> bool {
    &&& forall|k: int| 0 <= k < s.len() ==> has_row(rows, (#[trigger] s[k]).name@)
    &&& forall|k: int| 0 <= k < s.len() ==> (#[trigger] s[k]).gpus_total == clamp(partition_total(rows, s[k].name@))
    &&& forall|k: int| 0 <= k < s.len() ==> (#[trigger] s[k]).gpus_alloc == clamp(partition_alloc(jobs, s[k].name@))
    &&& forall|i: int| 0 <= i < rows.len() ==> has_partition(s, #[trigger] rows[i].0)
    &&& partitions_sorted(s)
}

proof fn lemma_insert_partition(s: Seq<PartitionInfo>, e: PartitionInfo, p: int)
    requires
        0 <= p <= s.len(),
        partitions_sorted(s),
        forall|k: int| 0 <= k < s.len() ==> (#[trigger] s[k]).name@ != e.name@,
        forall|q: int| 0 <= q < p ==> !name_lt(e.name@, #[trigger] s[q].name@),
        p < s.len() ==> name_lt(e.name@, s[p].name@),
    ensures
        partitions_sorted(s.insert(p, e)),
{
    let o = s.insert(p, e);
    assert forall|a: int, b: int| 0 <= a < b < o.len() implies name_lt(#[trigger] o[a].name@, #[trigger] o[b].name@) by {
        if a < p && b < p {
            assert(o[a] == s[a] && o[b] == s[b]);
        } else if a < p && b == p {
            lemma_name_lt_total(s[a].name@, e.name@);
        } else if a < p {
            assert(o[a] == s[a] && o[b] == s[b - 1]);
        } else if a == p {
            if b - 1 > p {
                lemma_name_lt_transitive(e.name@, s[p].name@, s[b - 1].name@);
            }
        } else {
            assert(o[a] == s[a - 1] && o[b] == s[b - 1]);
        }
    }
}

proof fn lemma_sorted_distinct(s: Seq<PartitionInfo>, a: int, b: int)
    requires
        partitions_sorted(s),
        0 <= a < s.len(),
        0 <= b < s.len(),
        a != b,
    ensures
        s[a].name@ != s[b].name@,
{
    if a < b {
        assert(name_lt(s[a].name@, s[b].name@));
        lemma_name_lt_irreflexive(s[a].name@);
    } else {
        assert(name_lt(s[b].name@, s[a].name@));
        lemma_name_lt_irreflexive(s[b].name@);
    }
}

/// One entry per partition named in `rows`, with its capacity, in ascending
/// name order; allocations are left at zero.
fn collect_partitions(rows: &Vec<NodeCapacity>) -> (r: Vec<PartitionInfo>)
    ensures
        forall|k: int| 0 <= k < r.len() ==> has_row(rows@.map_values(|c: NodeCapacity| c@), (#[trigger] r@[k]).name@),
        forall|k: int| 0 <= k < r.len() ==> (#[trigger] r@[k]).gpus_total == clamp(
            partition_total(rows@.map_values(|c: NodeCapacity| c@), r@[k].name@),
        ),
        forall|i: int| 0 <= i < rows.len() ==> has_partition(r@, #[trigger] rows@[i].partition@),
        partitions_sorted(r@),
{
    let ghost views = rows@.map_values(|c: NodeCapacity| c@);
    let mut parts: Vec<PartitionInfo> = Vec::new();
    let mut i: usize = 0;
    while i < rows.len()
        invariant
            i <= rows.len(),
            views == rows@.map_values(|c: NodeCapacity| c@),
            forall|k: int| 0 <= k < parts.len() ==> has_row(views.take(i as int), (#[trigger] parts@[k]).name@),
            forall|k: int| 0 <= k < parts.len() ==> (#[trigger] parts@[k]).gpus_total == clamp(
                partition_total(views.take(i as int), parts@[k].name@),
            ),
            forall|w: int| 0 <= w < i ==> has_partition(parts@, #[trigger] views[w].0),
            partitions_sorted(parts@),
        decreases rows.len() - i,
    {
        let ghost before = views.take(i as int);
        let ghost after = views.take(i + 1);
        let ghost old_parts = parts@;
        proof {
            assert(after.drop_last() =~= before);
            assert(after.last() == views[i as int]);
        }
        let name = &rows[i].partition;
        let gpus = rows[i].gpus;
        let mut k: usize = 0;
        while k < parts.len() && !string_is(&parts[k].name, name)
            invariant
                k <= parts.len(),
                forall|m: int| 0 <= m < k ==> parts@[m].name@ != name@,
            decreases parts.len() - k,
        {
            k = k + 1;
        }
        proof {
            assert forall|m: int| 0 <= m < parts.len() implies has_row(after, (#[trigger] parts@[m]).name@) by {
                let w = choose|w: int| 0 <= w < before.len() && #[trigger] before[w].0 == parts@[m].name@;
                assert(after[w] == before[w]);
            }
        }
        if k < parts.len() {
            let entry = PartitionInfo {
                name: parts[k].name.clone(),
                gpus_alloc: 0,
                gpus_total: parts[k].gpus_total.saturating_add(gpus),
            };
            parts.set(k, entry);
            proof {
                assert forall|m: int| 0 <= m < parts.len() implies has_row(after, (#[trigger] parts@[m]).name@) by {
                    assert(parts@[m].name@ == old_parts[m].name@);
                }
                assert forall|m: int| 0 <= m < parts.len() implies (#[trigger] parts@[m]).gpus_total == clamp(
                    partition_total(after, parts@[m].name@),
                ) by {
                    if m != k {
                        lemma_sorted_distinct(old_parts, m, k as int);
                        assert(parts@[m] == old_parts[m]);
                    }
                }
                assert forall|w: int| 0 <= w <= i implies has_partition(parts@, #[trigger] views[w].0) by {
                    if w < i {
                        let m = choose|m: int| 0 <= m < old_parts.len() && #[trigger] old_parts[m].name@ == views[w].0;
                        assert(parts@[m].name@ == views[w].0);
                    } else {
                        assert(parts@[k as int].name@ == views[w].0);
                    }
                }
                assert(partitions_sorted(parts@)) by {
                    assert forall|a: int, b: int| 0 <= a < b < parts.len() implies name_lt(
                        #[trigger] parts@[a].name@,
                        #[trigger] parts@[b].name@,
                    ) by {
                        assert(parts@[a].name@ == old_parts[a].name@);
                        assert(parts@[b].name@ == old_parts[b].name@);
                    }
                }
            }
        } else {
            let mut p: usize = 0;
            while p < parts.len() && !chars_lt(chars_of(name.as_str()).as_slice(), chars_of(parts[p].name.as_str()).as_slice())
                invariant
                    p <= parts.len(),
                    parts@ == old_parts,
                    forall|q: int| 0 <= q < p ==> !name_lt(name@, #[trigger] parts@[q].name@),
                decreases parts.len() - p,
            {
                p = p + 1;
            }
            let entry = PartitionInfo { name: name.clone(), gpus_alloc: 0, gpus_total: gpus };
            proof {
                assert(!has_row(before, name@)) by {
                    if has_row(before, name@) {
                        let w = choose|w: int| 0 <= w < before.len() && #[trigger] before[w].0 == name@;
                        assert(has_partition(old_parts, views[w].0));
                    }
                }
                lemma_absent_row(before, name@);
                lemma_insert_partition(old_parts, entry, p as int);
            }
            parts.insert(p, entry);
            proof {
                assert forall|m: int| 0 <= m < parts.len() implies has_row(after, (#[trigger] parts@[m]).name@) by {
                    if m < p {
                        assert(parts@[m] == old_parts[m]);
                    } else if m == p {
                        assert(after[i as int].0 == name@);
                    } else {
                        assert(parts@[m] == old_parts[m - 1]);
                    }
                }
                assert forall|m: int| 0 <= m < parts.len() implies (#[trigger] parts@[m]).gpus_total == clamp(
                    partition_total(after, parts@[m].name@),
                ) by {
                    if m < p {
                        assert(parts@[m] == old_parts[m]);
                    } else if m > p {
                        assert(parts@[m] == old_parts[m - 1]);
                    }
                }
                assert forall|w: int| 0 <= w <= i implies has_partition(parts@, #[trigger] views[w].0) by {
                    if w < i {
                        let m = choose|m: int| 0 <= m < old_parts.len() && #[trigger] old_parts[m].name@ == views[w].0;
                        if m < p {
                            assert(parts@[m].name@ == views[w].0);
                        } else {
                            assert(parts@[m + 1].name@ == views[w].0);
                        }
                    } else {
                        assert(parts@[p as int].name@ == views[w].0);
                    }
                }
            }
        }
        i = i + 1;
    }
    assert(views.take(rows.len() as int) =~= views);
    assert forall|i: int| 0 <= i < rows.len() implies has_partition(parts@, #[trigger] rows@[i].partition@) by {
        assert(views[i].0 == rows@[i].partition@);
    }
    parts
}

proof fn lemma_absent_row(rows: Seq<(Seq<char>, nat)>, p: Seq<char>)
    requires
        !has_row(rows, p),
    ensures
        partition_total(rows, p) == 0,
    decreases rows.len(),
{
    if rows.len() > 0 {
        let init = rows.drop_last();
        assert(!has_row(init, p)) by {
            if has_row(init, p) {
                let i = choose|i: int| 0 <= i < init.len() && #[trigger] init[i].0 == p;
                assert(rows[i] == init[i]);
            }
        }
        assert(rows[rows.len() - 1] == rows.last());
        lemma_absent_row(init, p);
    }
}

/// The GPUs used by the running records on partition `p`, capped at `u32::MAX`.
fn partition_alloc_of(jobs: &Vec<Job>, p: &String) -> (r: u32)
    ensures
        r == clamp(partition_alloc(jobs@.map_values(|j: Job| j@), p@)),
{
    let ghost views = jobs@.map_values(|j: Job| j@);
    let run = string_of(vec!['R', 'U', 'N', 'N', 'I', 'N', 'G'].as_slice());
    assert(run@ =~= running());
    let mut total: u32 = 0;
    let mut i: usize = 0;
    while i < jobs.len()
        invariant
            i <= jobs.len(),
            views == jobs@.map_values(|j: Job| j@),
            run@ == running(),
            total == clamp(partition_alloc(views.take(i as int), p@)),
        decreases jobs.len() - i,
    {
        proof {
            assert(views.take(i + 1).drop_last() =~= views.take(i as int));
            assert(views.take(i + 1).last() == jobs@[i as int]@);
        }
        if string_is(&jobs[i].Partition, p) && string_is(&jobs[i].State, &run) {
            total = total.saturating_add(job_gpu_count(jobs[i].TRES.as_str()));
        }
        i = i + 1;
    }
    assert(views.take(jobs.len() as int) =~= views);
    total
}

/// The partition table: one entry per partition that the inventory rows
/// name, with its capacity and the GPUs its running records use, in
/// ascending name order.
pub fn partition_stats(jobs: &Vec<Job>, rows: &Vec<NodeCapacity>) -> (r: Vec<PartitionInfo>)
    ensures
        partitions_of(r@, jobs@.map_values(|j: Job| j@), rows@.map_values(|c: NodeCapacity| c@)),
{
    let ghost jv = jobs@.map_values(|j: Job| j@);
    let ghost rv = rows@.map_values(|c: NodeCapacity| c@);
    let mut parts = collect_partitions(rows);
    let ghost collected = parts@;
    let mut k: usize = 0;
    while k < parts.len()
        invariant
            k <= parts.len(),
            parts@.len() == collected.len(),
            forall|m: int| 0 <= m < parts.len() ==> (#[trigger] parts@[m]).name@ == collected[m].name@
                && parts@[m].gpus_total == collected[m].gpus_total,
            forall|m: int| 0 <= m < k ==> (#[trigger] parts@[m]).gpus_alloc == clamp(partition_alloc(jv, parts@[m].name@)),
            jv == jobs@.map_values(|j: Job| j@),
        decreases parts.len() - k,
    {
        let alloc = partition_alloc_of(jobs, &parts[k].name);
        let entry = PartitionInfo { name: parts[k].name.clone(), gpus_alloc: alloc, gpus_total: parts[k].gpus_total };
        parts.set(k, entry);
        k = k + 1;
    }
    proof {
        assert forall|i: int| 0 <= i < rv.len() implies has_partition(parts@, #[trigger] rv[i].0) by {
            assert(rv[i].0 == rows@[i].partition@);
            assert(has_partition(collected, rows@[i].partition@));
            let m = choose|m: int| 0 <= m < collected.len() && #[trigger] collected[m].name@ == rv[i].0;
            assert(parts@[m].name@ == rv[i].0);
        }
        assert(partitions_sorted(parts@)) by {
            assert forall|a: int, b: int| 0 <= a < b < parts.len() implies name_lt(
                #[trigger] parts@[a].name@,
                #[trigger] parts@[b].name@,
            ) by {
                assert(parts@[a].name@ == collected[a].name@);
                assert(parts@[b].name@ == collected[b].name@);
            }
        }
        assert forall|m: int| 0 <= m < parts.len() implies has_row(rv, (#[trigger] parts@[m]).name@) by {
            assert(parts@[m].name@ == collected[m].name@);
            assert(has_row(rv, collected[m].name@));
        }
        assert forall|m: int| 0 <= m < parts.len() implies (#[trigger] parts@[m]).gpus_total == clamp(partition_total(rv, parts@[m].name@)) by {
            assert(parts@[m].name@ == collected[m].name@);
            assert(collected[m].gpus_total == clamp(partition_total(rv, collected[m].name@)));
        }
    }
    parts
}

/// Whether `o` is the overview of `jobs` against the inventory `rows`.
pub open spec fn overview_of(
    o: ClusterOverview,
    jobs: Seq<Seq<Seq<char>>>,
    rows: Seq<(Seq<char>, nat)>,
) -> bool {
    &&& o.jobs_running == clamp(count_state(jobs, running()))
    &&& o.jobs_pending == clamp(count_state(jobs, pending()))
    &&& o.jobs_completing == clamp(count_state(jobs, completing()))
    &&& user_stats_of(o.user_stats@, jobs)
    &&& partitions_of(o.partitions@, jobs, rows)
}

/// The cluster overview for the records `jobs` and the inventory rows
/// `inventory`: state counters, per-user statistics (most GPUs first, then
/// by name) and per-partition allocation and capacity (by name).
pub fn get_cluster_overview(jobs: &Vec<Job>, inventory: &Vec<NodeCapacity>) -> (r: ClusterOverview)
    ensures
        overview_of(r, jobs@.map_values(|j: Job| j@), inventory@.map_values(|c: NodeCapacity| c@)),
{
    let (jobs_running, jobs_pending, jobs_completing) = count_states(jobs);
    let user_stats = user_stats(jobs);
    let partitions = partition_stats(jobs, inventory);
    ClusterOverview { jobs_running, jobs_pending, jobs_completing, partitions, user_stats }
}

/// A partition that the inventory does not name gets no entry, whatever
/// partitions the running records name.
pub proof fn lemma_no_partition_without_inventory(
    o: ClusterOverview,
    jobs: Seq<Seq<Seq<char>>>,
    rows: Seq<(Seq<char>, nat)>,
    p: Seq<char>,
)
    requires
        overview_of(o, jobs, rows),
        !has_row(rows, p),
    ensures
        !has_partition(o.partitions@, p),
{
    if has_partition(o.partitions@, p) {
        let k = choose|k: int| 0 <= k < o.partitions@.len() && #[trigger] o.partitions@[k].name@ == p;
        assert(has_row(rows, o.partitions@[k].name@));
    }
}

proof fn lemma_sorted_unique<T>(a: Seq<T>, b: Seq<T>, lt: spec_fn(T, T) -> bool)
    requires
        forall|x: T| !#[trigger] lt(x, x),
        forall|x: T, y: T, z: T| #[trigger] lt(x, y) && #[trigger] lt(y, z) ==> lt(x, z),
        forall|i: int, j: int| 0 <= i < j < a.len() ==> lt(#[trigger] a[i], #[trigger] a[j]),
        forall|i: int, j: int| 0 <= i < j < b.len() ==> lt(#[trigger] b[i], #[trigger] b[j]),
        forall|i: int| 0 <= i < a.len() ==> b.contains(#[trigger] a[i]),
        forall|j: int| 0 <= j < b.len() ==> a.contains(#[trigger] b[j]),
    ensures
        a == b,
    decreases a.len(),
{
    if a.len() == 0 {
        if b.len() > 0 {
            assert(a.contains(b[0]));
        }
        assert(a =~= b);
    } else {
        assert(b.contains(a[0]));
        let j = choose|j: int| 0 <= j < b.len() && b[j] == a[0];
        assert(a.contains(b[0]));
        let i = choose|i: int| 0 <= i < a.len() && a[i] == b[0];
        if j > 0 {
            assert(lt(b[0], b[j]));
            if i > 0 {
                assert(lt(a[0], a[i]));
            }
        }
        assert(a[0] == b[0]);
        let a1 = a.skip(1);
        let b1 = b.skip(1);
        assert forall|k: int| 0 <= k < a1.len() implies b1.contains(#[trigger] a1[k]) by {
            assert(a1[k] == a[k + 1]);
            assert(lt(a[0], a[k + 1]));
            assert(b.contains(a[k + 1]));
            let m = choose|m: int| 0 <= m < b.len() && b[m] == a[k + 1];
            assert(m != 0);
            assert(b1[m - 1] == b[m]);
        }
        assert forall|k: int| 0 <= k < b1.len() implies a1.contains(#[trigger] b1[k]) by {
            assert(b1[k] == b[k + 1]);
            assert(lt(b[0], b[k + 1]));
            assert(a.contains(b[k + 1]));
            let m = choose|m: int| 0 <= m < a.len() && a[m] == b[k + 1];
            assert(m != 0);
            assert(a1[m - 1] == a[m]);
        }
        assert forall|x: int, y: int| 0 <= x < y < a1.len() implies lt(#[trigger] a1[x], #[trigger] a1[y]) by {
            assert(a1[x] == a[x + 1] && a1[y] == a[y + 1]);
        }
        assert forall|x: int, y: int| 0 <= x < y < b1.len() implies lt(#[trigger] b1[x], #[trigger] b1[y]) by {
            assert(b1[x] == b[x + 1] && b1[y] == b[y + 1]);
        }
        lemma_sorted_unique(a1, b1, lt);
        assert(a =~= seq![a[0]] + a1);
        assert(b =~= seq![b[0]] + b1);
    }
}

/// What a user entry says: name, running jobs, pending jobs, GPUs used.
pub open spec fn user_row(e: UserStats) -> (Seq<char>, nat, nat, nat) {
    (e.name@, e.running_jobs as nat, e.pending_jobs as nat, e.gpus_used as nat)
}

/// What a partition entry says: name, GPUs allocated, GPUs in total.
pub open spec fn partition_row(e: PartitionInfo) -> (Seq<char>, nat, nat) {
    (e.name@, e.gpus_alloc as nat, e.gpus_total as nat)
}

/// The display order of user rows: more GPUs first, then by name.
pub open spec fn user_row_before(a: (Seq<char>, nat, nat, nat), b: (Seq<char>, nat, nat, nat)) -> bool {
    a.3 > b.3 || (a.3 == b.3 && name_lt(a.0, b.0))
}

/// The user statistics are determined by the records: any two lists that
/// meet `user_stats_of` for the same records say the same, row by row, so
/// the order leaves no tie unresolved.
pub proof fn lemma_user_stats_determined(s1: Seq<UserStats>, s2: Seq<UserStats>, jobs: Seq<Seq<Seq<char>>>)
    requires
        user_stats_of(s1, jobs),
        user_stats_of(s2, jobs),
    ensures
        s1.map_values(|e: UserStats| user_row(e)) == s2.map_values(|e: UserStats| user_row(e)),
{
    let a = s1.map_values(|e: UserStats| user_row(e));
    let b = s2.map_values(|e: UserStats| user_row(e));
    let lt = |x: (Seq<char>, nat, nat, nat), y: (Seq<char>, nat, nat, nat)| user_row_before(x, y);
    assert forall|x: (Seq<char>, nat, nat, nat)| !#[trigger] lt(x, x) by {
        lemma_name_lt_irreflexive(x.0);
    }
    assert forall|x: (Seq<char>, nat, nat, nat), y: (Seq<char>, nat, nat, nat), z: (Seq<char>, nat, nat, nat)|
        #[trigger] lt(x, y) && #[trigger] lt(y, z) implies lt(x, z) by {
        if x.3 == y.3 && y.3 == z.3 {
            lemma_name_lt_transitive(x.0, y.0, z.0);
        }
    }
    assert forall|i: int, j: int| 0 <= i < j < a.len() implies lt(#[trigger] a[i], #[trigger] a[j]) by {
        assert(user_before(s1[i], s1[j]));
    }
    assert forall|i: int, j: int| 0 <= i < j < b.len() implies lt(#[trigger] b[i], #[trigger] b[j]) by {
        assert(user_before(s2[i], s2[j]));
    }
    assert forall|i: int| 0 <= i < a.len() implies b.contains(#[trigger] a[i]) by {
        assert(user_entry_ok(s1[i], jobs));
        let w = choose|w: int| 0 <= w < jobs.len() && #[trigger] jobs[w][USERNAME_FIELD as int] == s1[i].name@;
        assert(has_entry(s2, jobs[w][USERNAME_FIELD as int]));
        let k = choose|k: int| 0 <= k < s2.len() && #[trigger] s2[k].name@ == jobs[w][USERNAME_FIELD as int];
        assert(user_entry_ok(s2[k], jobs));
        assert(b[k] == a[i]);
    }
    assert forall|j: int| 0 <= j < b.len() implies a.contains(#[trigger] b[j]) by {
        assert(user_entry_ok(s2[j], jobs));
        let w = choose|w: int| 0 <= w < jobs.len() && #[trigger] jobs[w][USERNAME_FIELD as int] == s2[j].name@;
        assert(has_entry(s1, jobs[w][USERNAME_FIELD as int]));
        let k = choose|k: int| 0 <= k < s1.len() && #[trigger] s1[k].name@ == jobs[w][USERNAME_FIELD as int];
        assert(user_entry_ok(s1[k], jobs));
        assert(a[k] == b[j]);
    }
    lemma_sorted_unique(a, b, lt);
}

/// The partition table is determined by the records and the inventory: any
/// two tables that meet `partitions_of` for the same inputs say the same,
/// row by row.
pub proof fn lemma_partitions_determined(
    s1: Seq<PartitionInfo>,
    s2: Seq<PartitionInfo>,
    jobs: Seq<Seq<Seq<char>>>,
    rows: Seq<(Seq<char>, nat)>,
)
    requires
        partitions_of(s1, jobs, rows),
        partitions_of(s2, jobs, rows),
    ensures
        s1.map_values(|e: PartitionInfo| partition_row(e)) == s2.map_values(|e: PartitionInfo| partition_row(e)),
{
    let a = s1.map_values(|e: PartitionInfo| partition_row(e));
    let b = s2.map_values(|e: PartitionInfo| partition_row(e));
    let lt = |x: (Seq<char>, nat, nat), y: (Seq<char>, nat, nat)| name_lt(x.0, y.0);
    assert forall|x: (Seq<char>, nat, nat)| !#[trigger] lt(x, x) by {
        lemma_name_lt_irreflexive(x.0);
    }
    assert forall|x: (Seq<char>, nat, nat), y: (Seq<char>, nat, nat), z: (Seq<char>, nat, nat)|
        #[trigger] lt(x, y) && #[trigger] lt(y, z) implies lt(x, z) by {
        lemma_name_lt_transitive(x.0, y.0, z.0);
    }
    assert forall|i: int, j: int| 0 <= i < j < a.len() implies lt(#[trigger] a[i], #[trigger] a[j]) by {
        assert(name_lt(s1[i].name@, s1[j].name@));
    }
    assert forall|i: int, j: int| 0 <= i < j < b.len() implies lt(#[trigger] b[i], #[trigger] b[j]) by {
        assert(name_lt(s2[i].name@, s2[j].name@));
    }
    assert forall|i: int| 0 <= i < a.len() implies b.contains(#[trigger] a[i]) by {
        assert(has_row(rows, s1[i].name@));
        let w = choose|w: int| 0 <= w < rows.len() && #[trigger] rows[w].0 == s1[i].name@;
        assert(has_partition(s2, rows[w].0));
        let k = choose|k: int| 0 <= k < s2.len() && #[trigger] s2[k].name@ == rows[w].0;
        assert(s2[k].gpus_total == clamp(partition_total(rows, s2[k].name@)));
        assert(s2[k].gpus_alloc == clamp(partition_alloc(jobs, s2[k].name@)));
        assert(s1[i].gpus_total == clamp(partition_total(rows, s1[i].name@)));
        assert(s1[i].gpus_alloc == clamp(partition_alloc(jobs, s1[i].name@)));
        assert(b[k] == a[i]);
    }
    assert forall|j: int| 0 <= j < b.len() implies a.contains(#[trigger] b[j]) by {
        assert(has_row(rows, s2[j].name@));
        let w = choose|w: int| 0 <= w < rows.len() && #[trigger] rows[w].0 == s2[j].name@;
        assert(has_partition(s1, rows[w].0));
        let k = choose|k: int| 0 <= k < s1.len() && #[trigger] s1[k].name@ == rows[w].0;
        assert(s1[k].gpus_total == clamp(partition_total(rows, s1[k].name@)));
        assert(s1[k].gpus_alloc == clamp(partition_alloc(jobs, s1[k].name@)));
        assert(s2[j].gpus_total == clamp(partition_total(rows, s2[j].name@)));
        assert(s2[j].gpus_alloc == clamp(partition_alloc(jobs, s2[j].name@)));
        assert(a[k] == b[j]);
    }
    lemma_sorted_unique(a, b, lt);
}

} // verus!
