//! The job schema: one ordered table of field names that drives both the
//! query sent to the job-listing tool and the layout of a parsed record.
use vstd::prelude::*;

use crate::text::{chars_of, string_of};

verus! {

/// Number of fields in the schema.
pub const FIELD_COUNT: usize = 22;

pub const STATE_FIELD: usize = 1;
pub const NAME_FIELD: usize = 3;
pub const USERNAME_FIELD: usize = 4;
pub const JOBID_FIELD: usize = 5;
pub const ARRAYJOBID_FIELD: usize = 6;
pub const PARTITION_FIELD: usize = 8;
pub const NODELIST_FIELD: usize = 9;
pub const TRES_FIELD: usize = 15;
pub const STDOUT_FIELD: usize = 20;
pub const STDERR_FIELD: usize = 21;

/// The column sentinel written after every field in the query.
pub open spec fn sentinel() -> Seq<char> {
    seq!['#', '#', '#']
}

pub fn sentinel_chars() -> (r: Vec<char>)
    ensures
        r@ == sentinel(),
{
    vec!['#', '#', '#']
}

/// The schema's field names, in order.
pub open spec fn schema_names() -> Seq<Seq<char>> {
    seq![
        "StateCompact"@,
        "State"@,
        "Reason"@,
        "Name"@,
        "UserName"@,
        "JobID"@,
        "ArrayJobID"@,
        "ArrayTaskID"@,
        "Partition"@,
        "NodeList"@,
        "ReqNodes"@,
        "SubmitTime"@,
        "StartTime"@,
        "TimeLimit"@,
        "TimeUsed"@,
        "TRES"@,
        "NumTasks"@,
        "Priority"@,
        "WorkDir"@,
        "Command"@,
        "STDOUT"@,
        "STDERR"@
    ]
}

/// One job-queue entry: one raw text value per schema field.
#[allow(non_snake_case)]
pub struct Job {
    pub StateCompact: String,
    pub State: String,
    pub Reason: String,
    pub Name: String,
    pub UserName: String,
    pub JobID: String,
    pub ArrayJobID: String,
    pub ArrayTaskID: String,
    pub Partition: String,
    pub NodeList: String,
    pub ReqNodes: String,
    pub SubmitTime: String,
    pub StartTime: String,
    pub TimeLimit: String,
    pub TimeUsed: String,
    pub TRES: String,
    pub NumTasks: String,
    pub Priority: String,
    pub WorkDir: String,
    pub Command: String,
    pub STDOUT: String,
    pub STDERR: String,
}

impl View for Job {
    type V = Seq<Seq<char>>;

    /// The field values in schema order.
    open spec fn view(&self) -> Seq<Seq<char>> {
        seq![
            self.StateCompact@,
            self.State@,
            self.Reason@,
            self.Name@,
            self.UserName@,
            self.JobID@,
            self.ArrayJobID@,
            self.ArrayTaskID@,
            self.Partition@,
            self.NodeList@,
            self.ReqNodes@,
            self.SubmitTime@,
            self.StartTime@,
            self.TimeLimit@,
            self.TimeUsed@,
            self.TRES@,
            self.NumTasks@,
            self.Priority@,
            self.WorkDir@,
            self.Command@,
            self.STDOUT@,
            self.STDERR@
        ]
    }
}

/// The query's column specification for one field.
pub open spec fn column_format(name: Seq<char>) -> Seq<char> {
    name + seq![':'] + sentinel()
}

/// The query format for the given names: each name with its column suffix,
/// separated by commas.
pub open spec fn query_format_of(names: Seq<Seq<char>>) -> Seq<char>
    decreases names.len(),
{
    if names.len() == 0 {
        seq![]
    } else if names.len() == 1 {
        column_format(names[0])
    } else {
        query_format_of(names.drop_last()) + seq![','] + column_format(names.last())
    }
}

impl Job {
    /// The schema's field names, in order.
    pub fn field_names() -> (r: Vec<&'static str>)
        ensures
            r@.map_values(|n: &str| n@) == schema_names(),
    {
        let r = vec![
        "StateCompact",
        "State",
        "Reason",
        "Name",
        "UserName",
        "JobID",
        "ArrayJobID",
        "ArrayTaskID",
        "Partition",
        "NodeList",
        "ReqNodes",
        "SubmitTime",
        "StartTime",
        "TimeLimit",
        "TimeUsed",
        "TRES",
        "NumTasks",
        "Priority",
        "WorkDir",
        "Command",
        "STDOUT",
        "STDERR"
        ];
        assert(r@.map_values(|n: &str| n@) =~= schema_names());
        r
    }

    /// The field values, in schema order.
    pub fn field_values(&self) -> (r: Vec<String>)
        ensures
            r@.map_values(|v: String| v@) == self@,
    {
        let r = vec![
            self.StateCompact.clone(),
            self.State.clone(),
            self.Reason.clone(),
            self.Name.clone(),
            self.UserName.clone(),
            self.JobID.clone(),
            self.ArrayJobID.clone(),
            self.ArrayTaskID.clone(),
            self.Partition.clone(),
            self.NodeList.clone(),
            self.ReqNodes.clone(),
            self.SubmitTime.clone(),
            self.StartTime.clone(),
            self.TimeLimit.clone(),
            self.TimeUsed.clone(),
            self.TRES.clone(),
            self.NumTasks.clone(),
            self.Priority.clone(),
            self.WorkDir.clone(),
            self.Command.clone(),
            self.STDOUT.clone(),
            self.STDERR.clone()
        ];
        assert(r@.map_values(|v: String| v@) =~= self@);
        r
    }

    /// Builds a record from the first `FIELD_COUNT` columns, in schema order.
    pub fn from_parts(parts: &Vec<Vec<char>>) -> (r: Job)
        requires
            parts.len() >= FIELD_COUNT,
        ensures
            r@ == parts@.map_values(|p: Vec<char>| p@).take(FIELD_COUNT as int),
    {
        let r = Job {
            StateCompact: string_of(parts[0].as_slice()),
            State: string_of(parts[1].as_slice()),
            Reason: string_of(parts[2].as_slice()),
            Name: string_of(parts[3].as_slice()),
            UserName: string_of(parts[4].as_slice()),
            JobID: string_of(parts[5].as_slice()),
            ArrayJobID: string_of(parts[6].as_slice()),
            ArrayTaskID: string_of(parts[7].as_slice()),
            Partition: string_of(parts[8].as_slice()),
            NodeList: string_of(parts[9].as_slice()),
            ReqNodes: string_of(parts[10].as_slice()),
            SubmitTime: string_of(parts[11].as_slice()),
            StartTime: string_of(parts[12].as_slice()),
            TimeLimit: string_of(parts[13].as_slice()),
            TimeUsed: string_of(parts[14].as_slice()),
            TRES: string_of(parts[15].as_slice()),
            NumTasks: string_of(parts[16].as_slice()),
            Priority: string_of(parts[17].as_slice()),
            WorkDir: string_of(parts[18].as_slice()),
            Command: string_of(parts[19].as_slice()),
            STDOUT: string_of(parts[20].as_slice()),
            STDERR: string_of(parts[21].as_slice())
        };
        assert(r@ =~= parts@.map_values(|p: Vec<char>| p@).take(FIELD_COUNT as int));
        r
    }
}

/// The format argument for the job-listing tool: every field name followed
/// by `:` and the sentinel, comma separated.
pub fn query_format() -> (r: String)
    ensures
        r@ == query_format_of(schema_names()),
{
    let names = Job::field_names();
    let sep = sentinel_chars();
    let mut acc: Vec<char> = Vec::new();
    let mut i: usize = 0;
    while i < names.len()
        invariant
            i <= names.len(),
            names@.map_values(|n: &str| n@) == schema_names(),
            sep@ == sentinel(),
            acc@ == query_format_of(schema_names().take(i as int)),
        decreases names.len() - i,
    {
        let ghost before = acc@;
        if i > 0 {
            acc.push(',');
        }
        let name = chars_of(names[i]);
        let mut k: usize = 0;
        while k < name.len()
            invariant
                k <= name.len(),
                acc@ == (if i > 0 { before + seq![','] } else { before }) + name@.take(k as int),
            decreases name.len() - k,
        {
            acc.push(name[k]);
            proof {
                assert(name@.take(k + 1) == name@.take(k as int).push(name@[k as int]));
            }
            k = k + 1;
        }
        acc.push(':');
        acc.push(sep[0]);
        acc.push(sep[1]);
        acc.push(sep[2]);
        proof {
            let t = schema_names().take(i + 1);
            assert(t.drop_last() =~= schema_names().take(i as int));
            assert(name@.take(name.len() as int) =~= name@);
            assert(name@ == schema_names()[i as int]);
            if i == 0 {
                assert(acc@ =~= column_format(t[0]));
            } else {
                assert(acc@ =~= query_format_of(t.drop_last()) + seq![','] + column_format(t.last()));
            }
        }
        i = i + 1;
    }
    proof {
        assert(schema_names().take(22) =~= schema_names());
    }
    string_of(acc.as_slice())
}

} // verus!
