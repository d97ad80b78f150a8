//! The inventory listing: one header line, then one line per node with its
//! partition, node count and generic-resource column, separated by spaces.
use vstd::prelude::*;

use crate::gres::{node_gpu_count, node_gpus};
use crate::text::{chars_of, slice_to_vec, split, split_on, string_of, trim, trim_chars};

verus! {

/// The GPU capacity that one inventory line gives to a partition.
pub struct NodeCapacity {
    pub partition: String,
    pub gpus: u32,
}

impl View for NodeCapacity {
    type V = (Seq<char>, nat);

    open spec fn view(&self) -> (Seq<char>, nat) {
        (self.partition@, self.gpus as nat)
    }
}

/// The non-empty pieces, in order.
pub open spec fn non_empty(pieces: Seq<Seq<char>>) -> Seq<Seq<char>>
    decreases pieces.len(),
{
    if pieces.len() == 0 {
        seq![]
    } else if pieces.last().len() > 0 {
        non_empty(pieces.drop_last()).push(pieces.last())
    } else {
        non_empty(pieces.drop_last())
    }
}

/// The space-separated columns of a line.
pub open spec fn columns(line: Seq<char>) -> Seq<Seq<char>> {
    non_empty(split(trim(line), seq![' ']))
}

/// A partition name without the `*` that marks the default partition.
pub open spec fn partition_name(col: Seq<char>) -> Seq<char> {
    if col.len() > 0 && col.last() == '*' {
        col.drop_last()
    } else {
        col
    }
}

/// The partition and GPU capacity of an inventory line with at least three columns.
pub open spec fn row_of(line: Seq<char>) -> Option<(Seq<char>, nat)> {
    let cols = columns(line);
    if cols.len() >= 3 {
        Some((partition_name(cols[0]), node_gpus(cols[2])))
    } else {
        None
    }
}

/// The capacities of the lines that have at least three columns, in order.
pub open spec fn rows_of(lines: Seq<Seq<char>>) -> Seq<(Seq<char>, nat)>
    decreases lines.len(),
{
    if lines.len() == 0 {
        seq![]
    } else {
        match row_of(lines.last()) {
            Some(r) => rows_of(lines.drop_last()).push(r),
            None => rows_of(lines.drop_last()),
        }
    }
}

/// The capacities listed in an inventory listing, after its header line.
pub open spec fn inventory_rows(text: Seq<char>) -> Seq<(Seq<char>, nat)> {
    rows_of(split(text, seq!['\n']).skip(1))
}

/// The space-separated columns of a line.
fn columns_of(line: &[char]) -> (r: Vec<Vec<char>>)
    ensures
        r@.map_values(|c: Vec<char>| c@) == columns(line@),
{
    let t = trim_chars(line);
    let space: Vec<char> = vec![' '];
    assert(space@ =~= seq![' ']);
    let pieces = split_on(t.as_slice(), space.as_slice());
    let ghost pv = pieces@.map_values(|c: Vec<char>| c@);
    let mut r: Vec<Vec<char>> = Vec::new();
    let mut i: usize = 0;
    while i < pieces.len()
        invariant
            i <= pieces.len(),
            pv == pieces@.map_values(|c: Vec<char>| c@),
            r@.map_values(|c: Vec<char>| c@) == non_empty(pv.take(i as int)),
        decreases pieces.len() - i,
    {
        proof {
            assert(pv.take(i + 1).drop_last() =~= pv.take(i as int));
            assert(pv.take(i + 1).last() == pieces@[i as int]@);
        }
        if pieces[i].len() > 0 {
            let ghost before = r@.map_values(|c: Vec<char>| c@);
            let piece = slice_to_vec(pieces[i].as_slice(), 0, pieces[i].len());
            assert(piece@ =~= pieces@[i as int]@);
            r.push(piece);
            assert(r@.map_values(|c: Vec<char>| c@) =~= before.push(pieces@[i as int]@));
        }
        i = i + 1;
    }
    assert(pv.take(pieces.len() as int) =~= pv);
    r
}

/// The capacities listed in an inventory listing, after its header line.
pub fn parse_inventory(text: &str) -> (r: Vec<NodeCapacity>)
    ensures
        r@.map_values(|c: NodeCapacity| c@) == inventory_rows(text@),
{
    let chars = chars_of(text);
    let newline: Vec<char> = vec!['\n'];
    assert(newline@ =~= seq!['\n']);
    let lines = split_on(chars.as_slice(), newline.as_slice());
    let ghost lv = lines@.map_values(|c: Vec<char>| c@);
    let ghost body = lv.skip(1);
    let mut r: Vec<NodeCapacity> = Vec::new();
    let mut i: usize = 1;
    assert(body.take(0) =~= Seq::<Seq<char>>::empty());
    assert(r@.map_values(|c: NodeCapacity| c@) =~= Seq::<(Seq<char>, nat)>::empty());
    while i < lines.len()
        invariant
            1 <= i <= lines.len(),
            lv == lines@.map_values(|c: Vec<char>| c@),
            body == lv.skip(1),
            r@.map_values(|c: NodeCapacity| c@) == rows_of(body.take(i - 1)),
        decreases lines.len() - i,
    {
        proof {
            assert(body.take(i as int).drop_last() =~= body.take(i - 1));
            assert(body.take(i as int).last() == lines@[i as int]@);
        }
        let cols = columns_of(lines[i].as_slice());
        if cols.len() >= 3 {
            let ghost before = r@.map_values(|c: NodeCapacity| c@);
            let first = &cols[0];
            let name = if first.len() > 0 && first[first.len() - 1] == '*' {
                slice_to_vec(first.as_slice(), 0, first.len() - 1)
            } else {
                slice_to_vec(first.as_slice(), 0, first.len())
            };
            proof {
                assert(first@.take(first.len() - 1) =~= first@.drop_last());
                assert(first@.subrange(0, first.len() as int) =~= first@);
            }
            let gres = string_of(cols[2].as_slice());
            let gpus = node_gpu_count(gres.as_str());
            r.push(NodeCapacity { partition: string_of(name.as_slice()), gpus });
            assert(r@.map_values(|c: NodeCapacity| c@) =~= before.push(row_of(lines@[i as int]@)->0));
        }
        i = i + 1;
    }
    assert(body.take(lines.len() - 1) =~= body);
    r
}

} // verus!
