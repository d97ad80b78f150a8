//! GPU counts in generic-resource descriptors.
//!
//! A descriptor names GPUs either in an aggregate form (`gres/gpu=4` in a
//! job's trackable resources, `gpu:4` in a node's inventory) or per device
//! type (`gres/gpu:a100=2`, `gpu:a100:2`). The first aggregate entry is
//! authoritative; without one, the per-type entries are summed.
use vstd::prelude::*;

use crate::interpolate::{digit_count, digits_value, is_digit};
use crate::text::{chars_of, occurs_at, occurs_at_exec};

verus! {

/// A character of a device-type name: ASCII letter, digit or underscore.
pub open spec fn is_word(c: char) -> bool {
    ('a' <= c && c <= 'z') || ('A' <= c && c <= 'Z') || ('0' <= c && c <= '9') || c == '_'
}

/// The number of consecutive word characters in `s` from position `j` on.
pub open spec fn word_count(s: Seq<char>, j: int) -> nat
    decreases s.len() - j,
{
    if 0 <= j < s.len() && is_word(s[j]) {
        1 + word_count(s, j + 1)
    } else {
        0
    }
}

/// A count as written in a descriptor; one too large for `u32` counts as 0.
pub open spec fn count_value(ds: Seq<char>) -> nat {
    if digits_value(ds) <= u32::MAX {
        digits_value(ds)
    } else {
        0
    }
}

/// The count written at position `j` of `s`.
pub open spec fn count_at(s: Seq<char>, j: int) -> nat {
    count_value(s.subrange(j, j + digit_count(s, j)))
}

/// Whether an aggregate entry (`prefix` then digits) starts at `i`.
pub open spec fn aggregate_at(s: Seq<char>, prefix: Seq<char>, i: int) -> bool {
    occurs_at(s, prefix, i) && digit_count(s, i + prefix.len()) > 0
}

/// The position of the first aggregate entry at or after `i`.
pub open spec fn first_aggregate(s: Seq<char>, prefix: Seq<char>, i: int) -> Option<int>
    decreases s.len() - i,
{
    if i < 0 || i >= s.len() {
        None
    } else if aggregate_at(s, prefix, i) {
        Some(i)
    } else {
        first_aggregate(s, prefix, i + 1)
    }
}

/// Where the digits of a per-type entry (`prefix`, a type name, `sep`,
/// digits) starting at `i` begin, if one starts there.
pub open spec fn typed_digits_at(s: Seq<char>, prefix: Seq<char>, sep: char, i: int) -> Option<int> {
    let w = i + prefix.len();
    let d = w + word_count(s, w) + 1;
    if occurs_at(s, prefix, i) && word_count(s, w) > 0 && d - 1 < s.len() && s[d - 1] == sep
        && digit_count(s, d) > 0 {
        Some(d)
    } else {
        None
    }
}

/// The sum of the counts of the non-overlapping per-type entries found
/// left to right from position `i` on.
pub open spec fn typed_sum_from(s: Seq<char>, prefix: Seq<char>, sep: char, i: int) -> nat
    decreases s.len() - i,
{
    if i < 0 || i >= s.len() {
        0
    } else {
        match typed_digits_at(s, prefix, sep, i) {
            Some(d) => if d <= i || d + digit_count(s, d) > s.len() {
                0
            } else {
                count_at(s, d) + typed_sum_from(s, prefix, sep, d + digit_count(s, d))
            },
            None => typed_sum_from(s, prefix, sep, i + 1),
        }
    }
}

/// The GPU count of a descriptor: the first aggregate entry if there is one,
/// else the sum of the per-type entries, capped at `u32::MAX`.
pub open spec fn gpu_count_of(s: Seq<char>, aggregate: Seq<char>, typed: Seq<char>, sep: char) -> nat {
    match first_aggregate(s, aggregate, 0) {
        Some(i) => count_at(s, i + aggregate.len()),
        None => {
            let total = typed_sum_from(s, typed, sep, 0);
            if total <= u32::MAX {
                total
            } else {
                u32::MAX as nat
            }
        },
    }
}

/// The aggregate prefix in a job's trackable resources.
pub open spec fn job_aggregate() -> Seq<char> {
    seq!['g', 'r', 'e', 's', '/', 'g', 'p', 'u', '=']
}

/// The per-type prefix in a job's trackable resources.
pub open spec fn job_typed() -> Seq<char> {
    seq!['g', 'r', 'e', 's', '/', 'g', 'p', 'u', ':']
}

/// The prefix of both forms in a node's generic-resource inventory.
pub open spec fn node_prefix() -> Seq<char> {
    seq!['g', 'p', 'u', ':']
}

/// The GPUs a job uses, from its trackable-resources field.
pub open spec fn job_gpus(tres: Seq<char>) -> nat {
    gpu_count_of(tres, job_aggregate(), job_typed(), '=')
}

/// The GPUs a node offers, from its generic-resource inventory column.
pub open spec fn node_gpus(gres: Seq<char>) -> nat {
    gpu_count_of(gres, node_prefix(), node_prefix(), ':')
}

proof fn lemma_digit_run(s: Seq<char>, j: int)
    ensures
        0 <= j <= s.len() ==> j + digit_count(s, j) <= s.len(),
        forall|m: int| j <= m < j + digit_count(s, j) ==> is_digit(#[trigger] s[m]),
        0 <= j + digit_count(s, j) < s.len() && digit_count(s, j) > 0 ==> !is_digit(s[j + digit_count(s, j)]),
    decreases s.len() - j,
{
    if 0 <= j < s.len() && is_digit(s[j]) {
        lemma_digit_run(s, j + 1);
    }
}

/// The end of the digit run that starts at `j`.
fn digit_run_end(s: &[char], j: usize) -> (r: usize)
    requires
        j <= s.len(),
    ensures
        r == j + digit_count(s@, j as int),
        r <= s.len(),
{
    let mut k = j;
    while k < s.len() && '0' <= s[k] && s[k] <= '9'
        invariant
            j <= k <= s.len(),
            digit_count(s@, j as int) == (k - j) + digit_count(s@, k as int),
        decreases s.len() - k,
    {
        k = k + 1;
    }
    k
}

/// The end of the word run that starts at `j`.
fn word_run_end(s: &[char], j: usize) -> (r: usize)
    requires
        j <= s.len(),
    ensures
        r == j + word_count(s@, j as int),
        r <= s.len(),
{
    let mut k = j;
    while k < s.len() && (('a' <= s[k] && s[k] <= 'z') || ('A' <= s[k] && s[k] <= 'Z') || ('0' <= s[k]
        && s[k] <= '9') || s[k] == '_')
        invariant
            j <= k <= s.len(),
            word_count(s@, j as int) == (k - j) + word_count(s@, k as int),
        decreases s.len() - k,
    {
        k = k + 1;
    }
    k
}

/// The count written as the digits `s[from..to]`, or 0 when it does not fit in `u32`.
fn parse_count(s: &[char], from: usize, to: usize) -> (r: u32)
    requires
        from <= to <= s.len(),
        forall|m: int| from <= m < to ==> is_digit(#[trigger] s@[m]),
    ensures
        r == count_value(s@.subrange(from as int, to as int)),
{
    let mut w: u32 = 0;
    let mut overflow = false;
    let mut k = from;
    while k < to
        invariant
            from <= k <= to <= s.len(),
            forall|m: int| from <= m < to ==> is_digit(#[trigger] s@[m]),
            !overflow ==> w == digits_value(s@.subrange(from as int, k as int)),
            overflow ==> digits_value(s@.subrange(from as int, k as int)) > u32::MAX,
        decreases to - k,
    {
        let ghost prev = s@.subrange(from as int, k as int);
        let d = s[k];
        assert(is_digit(s@[k as int]));
        let dv: u32 = d as u32 - '0' as u32;
        proof {
            let next = s@.subrange(from as int, k + 1);
            assert(next.drop_last() =~= prev);
            assert(next.last() == d);
            assert(digits_value(next) == digits_value(prev) * 10 + dv);
            assert(digits_value(prev) * 10 + dv >= digits_value(prev)) by (nonlinear_arith);
        }
        if !overflow {
            match w.checked_mul(10) {
                Some(t) => match t.checked_add(dv) {
                    Some(u) => {
                        w = u;
                    },
                    None => {
                        overflow = true;
                    },
                },
                None => {
                    overflow = true;
                },
            }
        }
        k = k + 1;
    }
    if overflow {
        0
    } else {
        w
    }
}

/// The GPU count of the descriptor `s`, with the given aggregate prefix,
/// per-type prefix and per-type separator.
fn gpu_count_with(s: &[char], aggregate: &[char], typed: &[char], sep: char) -> (r: u32)
    ensures
        r == gpu_count_of(s@, aggregate@, typed@, sep),
{
    let mut i: usize = 0;
    while i < s.len()
        invariant
            i <= s.len(),
            first_aggregate(s@, aggregate@, 0) == first_aggregate(s@, aggregate@, i as int),
        decreases s.len() - i,
    {
        if occurs_at_exec(s, aggregate, i) {
            let d = i + aggregate.len();
            let e = digit_run_end(s, d);
            if e > d {
                proof {
                    lemma_digit_run(s@, d as int);
                }
                return parse_count(s, d, e);
            }
        }
        i = i + 1;
    }
    let mut total: u32 = 0;
    let mut i: usize = 0;
    while i < s.len()
        invariant
            i <= s.len(),
            first_aggregate(s@, aggregate@, 0) is None,
            total == (if typed_sum_from(s@, typed@, sep, 0) - typed_sum_from(s@, typed@, sep, i as int) <= u32::MAX {
                typed_sum_from(s@, typed@, sep, 0) - typed_sum_from(s@, typed@, sep, i as int)
            } else {
                u32::MAX as int
            }),
            typed_sum_from(s@, typed@, sep, 0) >= typed_sum_from(s@, typed@, sep, i as int),
        decreases s.len() - i,
    {
        let mut matched = false;
        if occurs_at_exec(s, typed, i) {
            let w = i + typed.len();
            let v = word_run_end(s, w);
            if v > w && v < s.len() && s[v] == sep {
                let d = v + 1;
                let e = digit_run_end(s, d);
                if e > d {
                    proof {
                        lemma_digit_run(s@, d as int);
                        assert(typed_digits_at(s@, typed@, sep, i as int) == Some(d as int));
                    }
                    let c = parse_count(s, d, e);
                    total = total.saturating_add(c);
                    i = e;
                    matched = true;
                }
            }
        }
        if !matched {
            assert(typed_digits_at(s@, typed@, sep, i as int) is None);
            i = i + 1;
        }
    }
    total
}

/// The GPUs a job uses, read from its trackable-resources field.
pub fn job_gpu_count(tres: &str) -> (r: u32)
    ensures
        r == job_gpus(tres@),
{
    let s = chars_of(tres);
    let aggregate = vec!['g', 'r', 'e', 's', '/', 'g', 'p', 'u', '='];
    let typed = vec!['g', 'r', 'e', 's', '/', 'g', 'p', 'u', ':'];
    assert(aggregate@ =~= job_aggregate());
    assert(typed@ =~= job_typed());
    gpu_count_with(s.as_slice(), aggregate.as_slice(), typed.as_slice(), '=')
}

/// The GPUs a node offers, read from its generic-resource inventory column.
pub fn node_gpu_count(gres: &str) -> (r: u32)
    ensures
        r == node_gpus(gres@),
{
    let s = chars_of(gres);
    let prefix = vec!['g', 'p', 'u', ':'];
    assert(prefix@ =~= node_prefix());
    gpu_count_with(s.as_slice(), prefix.as_slice(), prefix.as_slice(), ':')
}

} // verus!
