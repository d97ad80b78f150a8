//! Record extraction: turning the job-listing tool's output into records.
use vstd::prelude::*;

use crate::filter::{ci_pattern_compiles, filter_accepts, LineFilter};
use crate::interpolate::{parse_paths, resolve_paths};
use crate::schema::{sentinel, sentinel_chars, Job, FIELD_COUNT};
use crate::text::{
    chars_of, first_occurrence, is_white, occurs_at, split, split_from, split_on, string_of, trim,
    trim_chars,
};

verus! {

/// The field values of a trimmed output line, when it splits on the sentinel
/// into exactly one column per field plus the empty one after the last sentinel.
pub open spec fn parse_columns(line: Seq<char>) -> Option<Seq<Seq<char>>> {
    let cols = split(line, sentinel());
    if cols.len() == FIELD_COUNT + 1 {
        Some(cols.take(FIELD_COUNT as int))
    } else {
        None
    }
}

/// The record for a raw output line: trimmed, split into columns, and with
/// its log paths expanded.
pub open spec fn parse_record(raw: Seq<char>) -> Option<Seq<Seq<char>>> {
    match parse_columns(trim(raw)) {
        Some(cols) => Some(resolve_paths(cols)),
        None => None,
    }
}

/// The records for a sequence of raw lines under the live filter `pattern`:
/// a line whose trimmed text the filter rejects, or that does not parse,
/// gives no record.
pub open spec fn extract_lines(lines: Seq<Seq<char>>, pattern: Seq<char>) -> Seq<Seq<Seq<char>>>
    decreases lines.len(),
{
    if lines.len() == 0 {
        seq![]
    } else {
        let last = lines.last();
        let rest = extract_lines(lines.drop_last(), pattern);
        if filter_accepts(pattern, trim(last)) && parse_record(last) is Some {
            rest.push(parse_record(last)->0)
        } else {
            rest
        }
    }
}

/// The records in the job-listing tool's output under the live filter `pattern`.
pub open spec fn extract(output: Seq<char>, pattern: Seq<char>) -> Seq<Seq<Seq<char>>> {
    extract_lines(split(output, seq!['\n']), pattern)
}

/// The output line that the job-listing tool writes for a record with these
/// values: every value followed by the sentinel.
pub open spec fn render_line(values: Seq<Seq<char>>) -> Seq<char>
    decreases values.len(),
{
    if values.len() == 0 {
        seq![]
    } else {
        values[0] + sentinel() + render_line(values.skip(1))
    }
}

/// Whether no sentinel starts inside `v`, also not one that runs into a
/// sentinel written right after it.
pub open spec fn sentinel_free(v: Seq<char>) -> bool {
    forall|i: int| 0 <= i < v.len() ==> !occurs_at(#[trigger] (v + sentinel()), sentinel(), i)
}

/// The field values of a raw output line, without expanding log paths.
pub fn parse_columns_of(line: &str) -> (r: Option<Job>)
    ensures
        match r {
            Some(j) => parse_columns(trim(line@)) == Some(j@),
            None => parse_columns(trim(line@)) is None,
        },
{
    let raw = chars_of(line);
    let t = trim_chars(raw.as_slice());
    let sep = sentinel_chars();
    let parts = split_on(t.as_slice(), sep.as_slice());
    if parts.len() != FIELD_COUNT + 1 {
        None
    } else {
        Some(Job::from_parts(&parts))
    }
}

/// The record for one raw output line, with its log paths expanded, or
/// `None` when the line does not have one column per field.
pub fn parse_line(line: &str) -> (r: Option<Job>)
    ensures
        match r {
            Some(j) => parse_record(line@) == Some(j@),
            None => parse_record(line@) is None,
        },
{
    match parse_columns_of(line) {
        Some(job) => {
            let mut job = job;
            parse_paths(&mut job);
            Some(job)
        },
        None => None,
    }
}

/// The records of the job-listing tool's output under the live filter
/// `filter_re`, one per line that passes the filter and parses, in order.
pub fn jobs_from_output(output: &str, filter_re: &str) -> (r: Vec<Job>)
    ensures
        r@.map_values(|j: Job| j@) == extract(output@, filter_re@),
{
    let filter = LineFilter::new(filter_re);
    let text = chars_of(output);
    let newline: Vec<char> = vec!['\n'];
    assert(newline@ =~= seq!['\n']);
    let lines = split_on(text.as_slice(), newline.as_slice());
    let ghost line_views = lines@.map_values(|l: Vec<char>| l@);
    let mut jobs: Vec<Job> = Vec::new();
    let mut i: usize = 0;
    while i < lines.len()
        invariant
            i <= lines.len(),
            filter@ == filter_re@,
            line_views == lines@.map_values(|l: Vec<char>| l@),
            jobs@.map_values(|j: Job| j@) == extract_lines(line_views.take(i as int), filter_re@),
        decreases lines.len() - i,
    {
        let line = string_of(lines[i].as_slice());
        let trimmed = string_of(trim_chars(lines[i].as_slice()).as_slice());
        let ghost before = jobs@.map_values(|j: Job| j@);
        proof {
            assert(line_views.take(i + 1).drop_last() =~= line_views.take(i as int));
            assert(line_views.take(i + 1).last() == line@);
        }
        if filter.accepts(trimmed.as_str()) {
            match parse_line(line.as_str()) {
                Some(job) => {
                    jobs.push(job);
                    assert(jobs@.map_values(|j: Job| j@) =~= before.push(parse_record(line@)->0));
                },
                None => {},
            }
        }
        i = i + 1;
    }
    proof {
        assert(line_views.take(lines.len() as int) =~= line_views);
    }
    jobs
}

proof fn lemma_first_occurrence_shift(a: Seq<char>, b: Seq<char>, sep: Seq<char>, j: int)
    requires
        0 <= j,
    ensures
        first_occurrence(a + b, sep, a.len() + j) == (match first_occurrence(b, sep, j) {
            Some(m) => Some(a.len() + m),
            None => None,
        }),
    decreases b.len() - j,
{
    let s = a + b;
    let i = a.len() + j;
    if i >= s.len() || i + sep.len() > s.len() {
    } else {
        assert(s.subrange(i, i + sep.len()) =~= b.subrange(j, j + sep.len()));
        if !occurs_at(s, sep, i) {
            lemma_first_occurrence_shift(a, b, sep, j + 1);
        }
    }
}

proof fn lemma_split_shift(a: Seq<char>, b: Seq<char>, sep: Seq<char>, j: int)
    requires
        0 <= j <= b.len(),
        sep.len() > 0,
    ensures
        split_from(a + b, sep, a.len() + j) == split_from(b, sep, j),
    decreases b.len() - j,
{
    let s = a + b;
    lemma_first_occurrence_shift(a, b, sep, j);
    crate::text::lemma_first_occurrence_bounds(b, sep, j);
    match first_occurrence(b, sep, j) {
        None => {
            assert(s.subrange(a.len() + j, s.len() as int) =~= b.subrange(j, b.len() as int));
        },
        Some(m) => {
            assert(s.subrange(a.len() + j, a.len() + m) =~= b.subrange(j, m));
            lemma_split_shift(a, b, sep, m + sep.len());
        },
    }
}

proof fn lemma_first_occurrence_at(s: Seq<char>, sep: Seq<char>, j: int, m: int)
    requires
        0 <= j <= m,
        occurs_at(s, sep, m),
        sep.len() > 0,
        forall|i: int| j <= i < m ==> !occurs_at(s, sep, i),
    ensures
        first_occurrence(s, sep, j) == Some(m),
    decreases m - j,
{
    if j < m {
        lemma_first_occurrence_at(s, sep, j + 1, m);
    }
}

proof fn lemma_split_render(values: Seq<Seq<char>>)
    requires
        forall|k: int| 0 <= k < values.len() ==> sentinel_free(#[trigger] values[k]),
    ensures
        split(render_line(values), sentinel()) == values.push(seq![]),
    decreases values.len(),
{
    let sep = sentinel();
    if values.len() == 0 {
        let line = render_line(values);
        assert(line =~= Seq::<char>::empty());
        assert(first_occurrence(line, sep, 0) == None::<int>);
        assert(split(line, sep) == seq![line.subrange(0, 0)]);
        assert(line.subrange(0, 0) =~= Seq::<char>::empty());
        assert(split(render_line(values), sep) =~= values.push(seq![]));
    } else {
        let v = values[0];
        let head = v + sep;
        let rest = render_line(values.skip(1));
        let line = render_line(values);
        assert(line == head + rest);
        assert forall|k: int| 0 <= k < values.skip(1).len() implies sentinel_free(
            #[trigger] values.skip(1)[k],
        ) by {
            assert(values.skip(1)[k] == values[k + 1]);
        }
        lemma_split_render(values.skip(1));
        assert forall|i: int| 0 <= i < v.len() implies !occurs_at(line, sep, i) by {
            assert(sentinel_free(values[0]));
            assert(!occurs_at(v + sentinel(), sep, i));
            if i + sep.len() <= line.len() {
                assert(line.subrange(i, i + sep.len()) =~= head.subrange(i, i + sep.len()));
            }
        }
        assert(line.subrange(v.len() as int, (v.len() + sep.len()) as int) =~= sep);
        lemma_first_occurrence_at(line, sep, 0, v.len() as int);
        assert(line.subrange(0, v.len() as int) =~= v);
        lemma_split_shift(head, rest, sep, 0);
        assert(split_from(line, sep, 0) == seq![v] + split_from(line, sep, (v.len() + sep.len()) as int));
        assert(seq![v] + values.skip(1).push(seq![]) =~= values.push(seq![]));
    }
}

proof fn lemma_render_ends(values: Seq<Seq<char>>)
    requires
        values.len() > 0,
    ensures
        render_line(values).len() > 0,
        render_line(values).last() == '#',
        render_line(values)[0] == (if values[0].len() > 0 { values[0][0] } else { '#' }),
    decreases values.len(),
{
    assert(render_line(values) == values[0] + sentinel() + render_line(values.skip(1)));
    if values.len() > 1 {
        lemma_render_ends(values.skip(1));
    }
}

/// Rendering a record's values as an output line and parsing the line back
/// gives the same values, in order, provided no value holds the sentinel and
/// the first value does not start with whitespace (which trimming would drop).
pub proof fn lemma_round_trip(values: Seq<Seq<char>>)
    requires
        values.len() == FIELD_COUNT,
        forall|k: int| 0 <= k < values.len() ==> sentinel_free(#[trigger] values[k]),
        values[0].len() > 0 ==> !is_white(values[0][0]),
    ensures
        parse_columns(trim(render_line(values))) == Some(values),
{
    let line = render_line(values);
    lemma_render_ends(values);
    assert(crate::text::skip_white(line, 0) == 0);
    assert(crate::text::cut_white(line, line.len() as int) == line.len());
    assert(trim(line) =~= line);
    lemma_split_render(values);
    assert(values.push(seq![]).take(FIELD_COUNT as int) =~= values);
}

proof fn lemma_extract_append(a: Seq<Seq<char>>, b: Seq<Seq<char>>, pattern: Seq<char>)
    ensures
        extract_lines(a + b, pattern) == extract_lines(a, pattern) + extract_lines(b, pattern),
    decreases b.len(),
{
    if b.len() == 0 {
        assert(a + b =~= a);
        assert(extract_lines(a, pattern) + extract_lines(b, pattern) =~= extract_lines(a, pattern));
    } else {
        assert((a + b).drop_last() =~= a + b.drop_last());
        lemma_extract_append(a, b.drop_last(), pattern);
        let x = extract_lines(a, pattern);
        let y = extract_lines(b.drop_last(), pattern);
        let last = b.last();
        if filter_accepts(pattern, trim(last)) && parse_record(last) is Some {
            assert((x + y).push(parse_record(last)->0) =~= x + y.push(parse_record(last)->0));
        }
    }
}

/// A line that does not split into one column per field plus one gives no
/// record, and the lines before and after it give the same records as they
/// would without it.
pub proof fn lemma_malformed_line_dropped(
    before: Seq<Seq<char>>,
    line: Seq<char>,
    after: Seq<Seq<char>>,
    pattern: Seq<char>,
)
    requires
        split(trim(line), sentinel()).len() != FIELD_COUNT + 1,
    ensures
        parse_record(line) is None,
        extract_lines(before + seq![line] + after, pattern) == extract_lines(before, pattern)
            + extract_lines(after, pattern),
{
    lemma_extract_append(before + seq![line], after, pattern);
    lemma_extract_append(before, seq![line], pattern);
    assert(seq![line].drop_last() =~= Seq::<Seq<char>>::empty());
    assert(seq![line].last() == line);
    assert(parse_columns(trim(line)) is None);
    assert(extract_lines(seq![line].drop_last(), pattern) =~= Seq::<Seq<Seq<char>>>::empty());
    assert(extract_lines(seq![line], pattern) =~= Seq::<Seq<Seq<char>>>::empty());
    assert(extract_lines(before, pattern) + extract_lines(seq![line], pattern) =~= extract_lines(before, pattern));
}

/// A live filter that does not compile has no effect: the records are those
/// extracted with no filter at all.
pub proof fn lemma_invalid_filter_has_no_effect(output: Seq<char>, pattern: Seq<char>)
    requires
        !ci_pattern_compiles(pattern),
    ensures
        extract(output, pattern) == extract(output, seq![]),
{
    lemma_invalid_filter_lines(split(output, seq!['\n']), pattern);
}

proof fn lemma_invalid_filter_lines(lines: Seq<Seq<char>>, pattern: Seq<char>)
    requires
        !ci_pattern_compiles(pattern),
    ensures
        extract_lines(lines, pattern) == extract_lines(lines, seq![]),
    decreases lines.len(),
{
    if lines.len() > 0 {
        lemma_invalid_filter_lines(lines.drop_last(), pattern);
    }
}

} // verus!
