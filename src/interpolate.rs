//! Expansion of the job-listing tool's log-path templates (`%j`, `%4N`, ...)
//! with the values of a record.
use vstd::prelude::*;

use crate::schema::{
    Job, ARRAYJOBID_FIELD, JOBID_FIELD, NAME_FIELD, NODELIST_FIELD, STDERR_FIELD, STDOUT_FIELD,
    USERNAME_FIELD,
};
use crate::text::{chars_of, push_all, string_of};

verus! {

/// Whether a character is an ASCII decimal digit.
pub open spec fn is_digit(c: char) -> bool {
    '0' <= c && c <= '9'
}

/// The record value that a placeholder letter stands for, if the letter is supported.
pub open spec fn field_for(letter: char, job: Seq<Seq<char>>) -> Option<Seq<char>> {
    if letter == 'a' {
        Some(job[ARRAYJOBID_FIELD as int])
    } else if letter == 'N' {
        Some(job[NODELIST_FIELD as int])
    } else if letter == 'u' {
        Some(job[USERNAME_FIELD as int])
    } else if letter == 'x' {
        Some(job[NAME_FIELD as int])
    } else if letter == 'j' {
        Some(job[JOBID_FIELD as int])
    } else {
        None
    }
}

/// The number of consecutive digits in `p` from position `j` on.
pub open spec fn digit_count(p: Seq<char>, j: int) -> nat
    decreases p.len() - j,
{
    if 0 <= j < p.len() && is_digit(p[j]) {
        1 + digit_count(p, j + 1)
    } else {
        0
    }
}

/// The decimal value of a string of digits.
pub open spec fn digits_value(ds: Seq<char>) -> nat
    decreases ds.len(),
{
    if ds.len() == 0 {
        0
    } else {
        digits_value(ds.drop_last()) * 10 + ((ds.last() as nat) - ('0' as nat)) as nat
    }
}

/// The pad width written as `ds`; a width too large for `usize` counts as none.
pub open spec fn pad_width(ds: Seq<char>) -> nat {
    if digits_value(ds) <= usize::MAX {
        digits_value(ds)
    } else {
        0
    }
}

/// Whether `v` is a non-empty string of digits.
pub open spec fn all_digits(v: Seq<char>) -> bool {
    v.len() > 0 && forall|i: int| 0 <= i < v.len() ==> is_digit(#[trigger] v[i])
}

/// `v` left-padded with zeros to `width` characters when it is made of digits;
/// any other value is left as it is.
pub open spec fn zero_pad(v: Seq<char>, width: nat) -> Seq<char> {
    if all_digits(v) && width > v.len() {
        Seq::new((width - v.len()) as nat, |i: int| '0') + v
    } else {
        v
    }
}

/// The expansion of `p[i..]` for the record `job`, read left to right:
/// `%%` gives `%`, `%\` gives `\`, `%<digits><letter>` gives the letter's
/// value padded to the width, an unsupported letter is kept as `%<letter>`,
/// a `%` at the very end is dropped, and a `%<digits>` at the very end is
/// kept as written.
pub open spec fn interpolate_from(p: Seq<char>, job: Seq<Seq<char>>, i: int) -> Seq<char>
    decreases p.len() - i,
{
    if i < 0 || i >= p.len() {
        seq![]
    } else if p[i] != '%' {
        seq![p[i]] + interpolate_from(p, job, i + 1)
    } else if i + 1 >= p.len() {
        seq![]
    } else if p[i + 1] == '\\' {
        seq!['\\'] + interpolate_from(p, job, i + 2)
    } else if p[i + 1] == '%' {
        seq!['%'] + interpolate_from(p, job, i + 2)
    } else {
        let k = i + 1 + digit_count(p, i + 1);
        if k >= p.len() {
            seq!['%'] + p.subrange(i + 1, p.len() as int)
        } else {
            match field_for(p[k], job) {
                Some(v) => zero_pad(v, pad_width(p.subrange(i + 1, k)))
                    + interpolate_from(p, job, k + 1),
                None => seq!['%', p[k]] + interpolate_from(p, job, k + 1),
            }
        }
    }
}

/// The expansion of the whole template `p` for the record `job`.
pub open spec fn interpolate(p: Seq<char>, job: Seq<Seq<char>>) -> Seq<char> {
    interpolate_from(p, job, 0)
}

/// The record with its two log-path fields expanded, standard output first.
pub open spec fn resolve_paths(job: Seq<Seq<char>>) -> Seq<Seq<char>> {
    let with_out = job.update(STDOUT_FIELD as int, interpolate(job[STDOUT_FIELD as int], job));
    with_out.update(STDERR_FIELD as int, interpolate(with_out[STDERR_FIELD as int], with_out))
}

/// The value that the placeholder letter `symbol` stands for in `job`, if the
/// letter is one of the supported ones.
pub fn replace_char(symbol: char, job: &Job) -> (r: Option<String>)
    ensures
        match r {
            Some(s) => field_for(symbol, job@) == Some(s@),
            None => field_for(symbol, job@) is None,
        },
{
    match symbol {
        'a' => Some(job.ArrayJobID.clone()),
        'N' => Some(job.NodeList.clone()),
        'u' => Some(job.UserName.clone()),
        'x' => Some(job.Name.clone()),
        'j' => Some(job.JobID.clone()),
        _ => None,
    }
}

/// The pad width written as `p[from..to]`, or 0 when it does not fit in `usize`.
fn parse_width(p: &[char], from: usize, to: usize) -> (r: usize)
    requires
        from <= to <= p.len(),
        forall|m: int| from <= m < to ==> is_digit(#[trigger] p@[m]),
    ensures
        r == pad_width(p@.subrange(from as int, to as int)),
{
    let mut w: usize = 0;
    let mut overflow = false;
    let mut k = from;
    while k < to
        invariant
            from <= k <= to <= p.len(),
            forall|m: int| from <= m < to ==> is_digit(#[trigger] p@[m]),
            !overflow ==> w == digits_value(p@.subrange(from as int, k as int)),
            overflow ==> digits_value(p@.subrange(from as int, k as int)) > usize::MAX,
        decreases to - k,
    {
        let ghost prev = p@.subrange(from as int, k as int);
        let d = p[k];
        assert(is_digit(p@[k as int]));
        let dv: usize = (d as u32 - '0' as u32) as usize;
        proof {
            let next = p@.subrange(from as int, k + 1);
            assert(next.drop_last() =~= prev);
            assert(next.last() == d);
            assert(digits_value(next) == digits_value(prev) * 10 + dv);
            assert(digits_value(prev) * 10 + dv >= digits_value(prev)) by (nonlinear_arith);
        }
        if !overflow {
            match w.checked_mul(10) {
                Some(t) => match t.checked_add(dv) {
                    Some(u) => {
                        w = u;
                    },
                    None => {
                        overflow = true;
                    },
                },
                None => {
                    overflow = true;
                },
            }
        }
        k = k + 1;
    }
    if overflow {
        0
    } else {
        w
    }
}

/// Whether `v` is a non-empty string of digits.
fn all_digits_exec(v: &[char]) -> (r: bool)
    ensures
        r == all_digits(v@),
{
    if v.len() == 0 {
        return false;
    }
    let mut k: usize = 0;
    while k < v.len()
        invariant
            k <= v.len(),
            forall|m: int| 0 <= m < k ==> is_digit(#[trigger] v@[m]),
        decreases v.len() - k,
    {
        if !('0' <= v[k] && v[k] <= '9') {
            return false;
        }
        k = k + 1;
    }
    true
}

/// Appends `v`, zero-padded to `width` when it is made of digits.
fn push_padded(acc: &mut Vec<char>, v: &[char], width: usize)
    ensures
        final(acc)@ == old(acc)@ + zero_pad(v@, width as nat),
{
    if all_digits_exec(v) && width > v.len() {
        let n = width - v.len();
        let mut k: usize = 0;
        while k < n
            invariant
                k <= n,
                acc@ == old(acc)@ + Seq::new(k as nat, |i: int| '0'),
            decreases n - k,
        {
            acc.push('0');
            proof {
                assert(Seq::new((k + 1) as nat, |i: int| '0') =~= Seq::new(k as nat, |i: int| '0').push('0'));
            }
            k = k + 1;
        }
        push_all(acc, v);
        assert(acc@ =~= old(acc)@ + zero_pad(v@, width as nat));
    } else {
        push_all(acc, v);
    }
}

/// Expands the log-path template `pattern` with the values of `job`.
pub fn interpolate_path(pattern: &str, job: &Job) -> (r: String)
    ensures
        r@ == interpolate(pattern@, job@),
{
    let p = chars_of(pattern);
    let mut acc: Vec<char> = Vec::new();
    let mut i: usize = 0;
    while i < p.len()
        invariant
            i <= p.len(),
            p@ == pattern@,
            acc@ + interpolate_from(p@, job@, i as int) == interpolate(p@, job@),
        decreases p.len() - i,
    {
        let ghost before = acc@;
        if p[i] != '%' {
            acc.push(p[i]);
            assert(acc@ + interpolate_from(p@, job@, i + 1) =~= before + interpolate_from(p@, job@, i as int));
            i = i + 1;
        } else if i + 1 >= p.len() {
            i = i + 1;
        } else if p[i + 1] == '\\' {
            acc.push('\\');
            assert(acc@ + interpolate_from(p@, job@, i + 2) =~= before + interpolate_from(p@, job@, i as int));
            i = i + 2;
        } else if p[i + 1] == '%' {
            acc.push('%');
            assert(acc@ + interpolate_from(p@, job@, i + 2) =~= before + interpolate_from(p@, job@, i as int));
            i = i + 2;
        } else {
            let mut k = i + 1;
            while k < p.len() && '0' <= p[k] && p[k] <= '9'
                invariant
                    i + 1 <= k <= p.len(),
                    digit_count(p@, i + 1) == (k - (i + 1)) + digit_count(p@, k as int),
                    forall|m: int| i + 1 <= m < k ==> is_digit(#[trigger] p@[m]),
                decreases p.len() - k,
            {
                k = k + 1;
            }
            assert(k == i + 1 + digit_count(p@, i + 1));
            if k >= p.len() {
                acc.push('%');
                push_all(&mut acc, &p[i + 1..k]);
                assert(acc@ =~= before + interpolate_from(p@, job@, i as int));
                i = k;
            } else {
                let width = parse_width(p.as_slice(), i + 1, k);
                match replace_char(p[k], job) {
                    Some(v) => {
                        let vc = chars_of(v.as_str());
                        push_padded(&mut acc, vc.as_slice(), width);
                    },
                    None => {
                        acc.push('%');
                        acc.push(p[k]);
                    },
                }
                assert(acc@ + interpolate_from(p@, job@, k + 1) =~= before + interpolate_from(p@, job@, i as int));
                i = k + 1;
            }
        }
    }
    assert(acc@ =~= interpolate(p@, job@));
    string_of(acc.as_slice())
}

/// Expands the standard-output and standard-error path templates of `job`
/// in place, standard output first.
pub fn parse_paths(job: &mut Job)
    ensures
        final(job)@ == resolve_paths(old(job)@),
{
    let ghost start = job@;
    let out = interpolate_path(job.STDOUT.as_str(), job);
    job.STDOUT = out;
    let ghost with_out = start.update(STDOUT_FIELD as int, interpolate(start[STDOUT_FIELD as int], start));
    assert(job@ =~= with_out);
    let err = interpolate_path(job.STDERR.as_str(), job);
    job.STDERR = err;
    assert(job@ =~= with_out.update(STDERR_FIELD as int, interpolate(with_out[STDERR_FIELD as int], with_out)));
}

} // verus!
