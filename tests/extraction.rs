use lazyslurm::extract::{jobs_from_output, parse_columns_of, parse_line};
use lazyslurm::filter::LineFilter;
use lazyslurm::schema::{query_format, Job, FIELD_COUNT};

fn values(tag: &str) -> Vec<String> {
    (0..FIELD_COUNT).map(|i| format!("{}{}", tag, i)).collect()
}

fn render(values: &[String]) -> String {
    let mut line = String::new();
    for v in values {
        line.push_str(v);
        line.push_str("###");
    }
    line
}

#[test]
fn field_names_follow_schema_order() {
    let names = Job::field_names();
    assert_eq!(names.len(), FIELD_COUNT);
    assert_eq!(names[0], "StateCompact");
    assert_eq!(names[1], "State");
    assert_eq!(names[4], "UserName");
    assert_eq!(names[15], "TRES");
    assert_eq!(names[20], "STDOUT");
    assert_eq!(names[21], "STDERR");
}

#[test]
fn query_format_has_sentinel_after_every_field() {
    let q = query_format();
    assert!(q.starts_with("StateCompact:###,State:###,Reason:###,"));
    assert!(q.ends_with(",STDOUT:###,STDERR:###"));
    assert_eq!(q.matches(":###").count(), FIELD_COUNT);
    assert_eq!(q.split(',').count(), FIELD_COUNT);
}

#[test]
fn round_trip_reproduces_values() {
    let mut vals = values("v");
    vals[3] = "name with spaces".to_string();
    vals[7] = String::new();
    vals[13] = "a#b##c".to_string();
    let line = render(&vals);
    let job = parse_columns_of(&line).expect("line parses");
    assert_eq!(job.field_values(), vals);
}

#[test]
fn round_trip_through_parse_line_with_plain_paths() {
    let vals = values("x");
    let job = parse_line(&render(&vals)).expect("line parses");
    assert_eq!(job.field_values(), vals);
}

#[test]
fn surrounding_whitespace_is_trimmed() {
    let vals = values("w");
    let line = format!("  \t{}  \r", render(&vals));
    let job = parse_columns_of(&line).expect("line parses");
    assert_eq!(job.field_values(), vals);
}

#[test]
fn short_line_is_dropped() {
    let vals = values("s");
    let line = render(&vals[..FIELD_COUNT - 1]);
    assert!(parse_line(&line).is_none());
}

#[test]
fn long_line_is_dropped() {
    let mut vals = values("l");
    vals.push("extra".to_string());
    assert!(parse_line(&render(&vals)).is_none());
}

#[test]
fn malformed_line_does_not_affect_neighbours() {
    let a = values("a");
    let b = values("b");
    let bad = render(&values("c")[..FIELD_COUNT - 1]);
    let output = format!("{}\n{}\n{}\n", render(&a), bad, render(&b));
    let jobs = jobs_from_output(&output, "");
    assert_eq!(jobs.len(), 2);
    assert_eq!(jobs[0].field_values(), a);
    assert_eq!(jobs[1].field_values(), b);
}

#[test]
fn filter_keeps_matching_lines_case_insensitively() {
    let mut a = values("a");
    a[4] = "alice".to_string();
    let mut b = values("b");
    b[4] = "bob".to_string();
    let output = format!("{}\n{}\n", render(&a), render(&b));
    let jobs = jobs_from_output(&output, "ALICE");
    assert_eq!(jobs.len(), 1);
    assert_eq!(jobs[0].UserName, "alice");
}

#[test]
fn filter_matches_across_fields() {
    let mut a = values("a");
    a[4] = "alice".to_string();
    a[9] = "loki".to_string();
    let mut b = values("b");
    b[4] = "alice".to_string();
    b[9] = "lory".to_string();
    let output = format!("{}\n{}\n", render(&a), render(&b));
    let jobs = jobs_from_output(&output, "alice.*loki");
    assert_eq!(jobs.len(), 1);
    assert_eq!(jobs[0].NodeList, "loki");
}

#[test]
fn invalid_filter_matches_everything() {
    let output = format!("{}\n{}\n", render(&values("a")), render(&values("b")));
    let all = jobs_from_output(&output, "");
    let fallback = jobs_from_output(&output, "(");
    assert_eq!(all.len(), 2);
    assert_eq!(fallback.len(), 2);
    let filter = LineFilter::new("(");
    assert!(filter.accepts("anything at all"));
    assert!(filter.accepts(""));
}

#[test]
fn empty_output_gives_no_records() {
    assert!(jobs_from_output("", "").is_empty());
    assert!(jobs_from_output("\n\n", "").is_empty());
}

#[test]
fn log_paths_are_expanded_on_extraction() {
    let mut vals = values("p");
    vals[5] = "42".to_string();
    vals[9] = "node01".to_string();
    vals[20] = "slurm.%N.%j.log".to_string();
    vals[21] = "err-%6j.txt".to_string();
    let job = parse_line(&render(&vals)).expect("line parses");
    assert_eq!(job.STDOUT, "slurm.node01.42.log");
    assert_eq!(job.STDERR, "err-000042.txt");
}
