use lazyslurm::extract::parse_columns_of;
use lazyslurm::interpolate::{interpolate_path, parse_paths, replace_char};
use lazyslurm::schema::{Job, FIELD_COUNT};

fn job_with(job_id: &str, nodes: &str, user: &str, name: &str, array_id: &str) -> Job {
    let mut vals: Vec<String> = (0..FIELD_COUNT).map(|i| format!("f{}", i)).collect();
    vals[3] = name.to_string();
    vals[4] = user.to_string();
    vals[5] = job_id.to_string();
    vals[6] = array_id.to_string();
    vals[9] = nodes.to_string();
    let mut line = String::new();
    for v in &vals {
        line.push_str(v);
        line.push_str("###");
    }
    parse_columns_of(&line).expect("line parses")
}

fn sample() -> Job {
    job_with("7", "node01", "alice", "train", "1234")
}

#[test]
fn double_percent_is_literal_percent() {
    assert_eq!(interpolate_path("%%", &sample()), "%");
}

#[test]
fn node_list_placeholder() {
    assert_eq!(interpolate_path("%N", &sample()), "node01");
}

#[test]
fn padded_job_id() {
    assert_eq!(interpolate_path("%4j", &sample()), "0007");
}

#[test]
fn unsupported_letter_is_kept() {
    assert_eq!(interpolate_path("%q", &sample()), "%q");
}

#[test]
fn backslash_escape() {
    assert_eq!(interpolate_path("a%\\b", &sample()), "a\\b");
}

#[test]
fn all_supported_letters() {
    let out = interpolate_path("%a/%N/%u/%x/%j", &sample());
    assert_eq!(out, "1234/node01/alice/train/7");
}

#[test]
fn padding_skips_non_numeric_values() {
    assert_eq!(interpolate_path("%8u", &sample()), "alice");
}

#[test]
fn padding_narrower_than_value_changes_nothing() {
    let job = job_with("123456", "n", "u", "x", "1");
    assert_eq!(interpolate_path("%3j", &job), "123456");
}

#[test]
fn plain_text_is_preserved() {
    assert_eq!(interpolate_path("/home/user/out.log", &sample()), "/home/user/out.log");
}

#[test]
fn trailing_percent_is_dropped() {
    assert_eq!(interpolate_path("log%", &sample()), "log");
}

#[test]
fn trailing_width_without_letter_is_kept() {
    assert_eq!(interpolate_path("log%12", &sample()), "log%12");
}

#[test]
fn unsupported_letter_after_width_drops_width() {
    assert_eq!(interpolate_path("%4q", &sample()), "%q");
}

#[test]
fn oversized_width_is_ignored() {
    let out = interpolate_path("%99999999999999999999999j", &sample());
    assert_eq!(out, "7");
}

#[test]
fn replace_char_maps_five_letters() {
    let job = sample();
    assert_eq!(replace_char('a', &job), Some("1234".to_string()));
    assert_eq!(replace_char('N', &job), Some("node01".to_string()));
    assert_eq!(replace_char('u', &job), Some("alice".to_string()));
    assert_eq!(replace_char('x', &job), Some("train".to_string()));
    assert_eq!(replace_char('j', &job), Some("7".to_string()));
    assert_eq!(replace_char('A', &job), None);
}

#[test]
fn parse_paths_rewrites_both_paths() {
    let mut job = sample();
    job.STDOUT = "out-%j.log".to_string();
    job.STDERR = "%u/err-%3j.log".to_string();
    parse_paths(&mut job);
    assert_eq!(job.STDOUT, "out-7.log");
    assert_eq!(job.STDERR, "alice/err-007.log");
}
