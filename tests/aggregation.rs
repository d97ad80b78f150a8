use lazyslurm::extract::parse_columns_of;
use lazyslurm::gres::{job_gpu_count, node_gpu_count};
use lazyslurm::inventory::{parse_inventory, NodeCapacity};
use lazyslurm::overview::{count_states, get_cluster_overview, user_stats};
use lazyslurm::schema::{Job, FIELD_COUNT};

fn job(state: &str, user: &str, partition: &str, tres: &str) -> Job {
    let mut vals: Vec<String> = (0..FIELD_COUNT).map(|i| format!("f{}", i)).collect();
    vals[1] = state.to_string();
    vals[4] = user.to_string();
    vals[8] = partition.to_string();
    vals[15] = tres.to_string();
    let mut line = String::new();
    for v in &vals {
        line.push_str(v);
        line.push_str("###");
    }
    parse_columns_of(&line).expect("line parses")
}

fn cap(partition: &str, gpus: u32) -> NodeCapacity {
    NodeCapacity { partition: partition.to_string(), gpus }
}

#[test]
fn aggregate_gpu_form_wins() {
    assert_eq!(job_gpu_count("gres/gpu=2,gres/gpu:a100=9"), 2);
}

#[test]
fn typed_gpu_forms_are_summed() {
    assert_eq!(job_gpu_count("gres/gpu:a100=3,gres/gpu:v100=1"), 4);
}

#[test]
fn no_gpu_gives_zero() {
    assert_eq!(job_gpu_count("cpu=4,mem=16G,node=1"), 0);
    assert_eq!(job_gpu_count(""), 0);
}

#[test]
fn typical_tres_field() {
    assert_eq!(job_gpu_count("cpu=8,mem=64G,node=1,billing=8,gres/gpu=4"), 4);
}

#[test]
fn oversized_count_reads_as_zero() {
    assert_eq!(job_gpu_count("gres/gpu=99999999999"), 0);
}

#[test]
fn node_gpu_forms() {
    assert_eq!(node_gpu_count("gpu:4"), 4);
    assert_eq!(node_gpu_count("gpu:a100:8(S:0-1)"), 8);
    assert_eq!(node_gpu_count("gpu:a100:2,gpu:v100:3"), 5);
    assert_eq!(node_gpu_count("(null)"), 0);
}

#[test]
fn state_counters() {
    let jobs = vec![
        job("RUNNING", "alice", "gpu", ""),
        job("RUNNING", "bob", "gpu", ""),
        job("PENDING", "alice", "gpu", ""),
    ];
    let o = get_cluster_overview(&jobs, &vec![]);
    assert_eq!(o.jobs_running, 2);
    assert_eq!(o.jobs_pending, 1);
    assert_eq!(o.jobs_completing, 0);
    assert_eq!(count_states(&jobs), (2, 1, 0));
}

#[test]
fn completing_and_other_states() {
    let jobs = vec![
        job("COMPLETING", "a", "p", ""),
        job("FAILED", "a", "p", ""),
        job("running", "a", "p", ""),
    ];
    assert_eq!(count_states(&jobs), (0, 0, 1));
}

#[test]
fn user_gpus_are_summed_over_running_jobs() {
    let jobs = vec![
        job("RUNNING", "alice", "gpu", "gres/gpu=2"),
        job("RUNNING", "alice", "gpu", "gres/gpu=3"),
        job("PENDING", "alice", "gpu", "gres/gpu=8"),
    ];
    let stats = user_stats(&jobs);
    assert_eq!(stats.len(), 1);
    assert_eq!(stats[0].name, "alice");
    assert_eq!(stats[0].gpus_used, 5);
    assert_eq!(stats[0].running_jobs, 2);
    assert_eq!(stats[0].pending_jobs, 1);
}

#[test]
fn users_sorted_by_gpus_then_name() {
    let jobs = vec![
        job("RUNNING", "carol", "gpu", "gres/gpu=1"),
        job("RUNNING", "bob", "gpu", "gres/gpu=4"),
        job("RUNNING", "alice", "gpu", "gres/gpu=1"),
        job("PENDING", "dave", "gpu", "gres/gpu=9"),
    ];
    let stats = user_stats(&jobs);
    let names: Vec<&str> = stats.iter().map(|s| s.name.as_str()).collect();
    assert_eq!(names, vec!["bob", "alice", "carol", "dave"]);
    assert_eq!(stats[3].gpus_used, 0);
    assert_eq!(stats[3].pending_jobs, 1);
}

#[test]
fn partitions_sorted_by_name() {
    let inventory = vec![cap("zeta", 4), cap("alpha", 2), cap("mid", 1), cap("alpha", 6)];
    let o = get_cluster_overview(&vec![], &inventory);
    let names: Vec<&str> = o.partitions.iter().map(|p| p.name.as_str()).collect();
    assert_eq!(names, vec!["alpha", "mid", "zeta"]);
    assert_eq!(o.partitions[0].gpus_total, 8);
    assert_eq!(o.partitions[1].gpus_total, 1);
    assert_eq!(o.partitions[2].gpus_total, 4);
}

#[test]
fn unknown_partition_gets_no_entry() {
    let jobs = vec![
        job("RUNNING", "alice", "gpu", "gres/gpu=2"),
        job("RUNNING", "bob", "ghost", "gres/gpu=5"),
        job("PENDING", "carol", "gpu", "gres/gpu=7"),
    ];
    let o = get_cluster_overview(&jobs, &vec![cap("gpu", 8)]);
    assert_eq!(o.partitions.len(), 1);
    assert_eq!(o.partitions[0].name, "gpu");
    assert_eq!(o.partitions[0].gpus_alloc, 2);
    assert_eq!(o.partitions[0].gpus_total, 8);
}

#[test]
fn inventory_listing_is_parsed_after_header() {
    let text = "PARTITION NODES GRES\ngpu* 1 gpu:a100:4(S:0-1)\ngpu 1 gpu:2\ncpu 1 (null)\nshort\n";
    let rows = parse_inventory(text);
    assert_eq!(rows.len(), 3);
    assert_eq!(rows[0].partition, "gpu");
    assert_eq!(rows[0].gpus, 4);
    assert_eq!(rows[1].partition, "gpu");
    assert_eq!(rows[1].gpus, 2);
    assert_eq!(rows[2].partition, "cpu");
    assert_eq!(rows[2].gpus, 0);
    let o = get_cluster_overview(&vec![], &rows);
    assert_eq!(o.partitions.len(), 2);
    assert_eq!(o.partitions[0].name, "cpu");
    assert_eq!(o.partitions[1].name, "gpu");
    assert_eq!(o.partitions[1].gpus_total, 6);
}

#[test]
fn inventory_columns_may_be_padded() {
    let rows = parse_inventory("HEADER\n  batch    2   gpu:8  \n");
    assert_eq!(rows.len(), 1);
    assert_eq!(rows[0].partition, "batch");
    assert_eq!(rows[0].gpus, 8);
}

#[test]
fn empty_inputs_give_empty_overview() {
    let o = get_cluster_overview(&vec![], &parse_inventory(""));
    assert_eq!(o.jobs_running, 0);
    assert!(o.user_stats.is_empty());
    assert!(o.partitions.is_empty());
}

#[test]
fn typed_sum_saturates() {
    assert_eq!(job_gpu_count("gres/gpu:a=4294967295,gres/gpu:b=5"), u32::MAX);
}

#[test]
fn user_gpus_saturate() {
    let jobs = vec![
        job("RUNNING", "alice", "gpu", "gres/gpu=4294967295"),
        job("RUNNING", "alice", "gpu", "gres/gpu=1"),
    ];
    let stats = user_stats(&jobs);
    assert_eq!(stats[0].gpus_used, u32::MAX);
    let o = get_cluster_overview(&jobs, &vec![cap("gpu", 4294967295), cap("gpu", 3)]);
    assert_eq!(o.partitions[0].gpus_alloc, u32::MAX);
    assert_eq!(o.partitions[0].gpus_total, u32::MAX);
}

#[test]
fn equal_gpus_sorted_by_name_with_common_prefix() {
    let jobs = vec![
        job("RUNNING", "ab", "p", "gres/gpu=1"),
        job("RUNNING", "a", "p", "gres/gpu=1"),
        job("RUNNING", "B", "p", "gres/gpu=1"),
    ];
    let stats = user_stats(&jobs);
    let names: Vec<&str> = stats.iter().map(|s| s.name.as_str()).collect();
    assert_eq!(names, vec!["B", "a", "ab"]);
}
