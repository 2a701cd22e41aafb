//! The satellite manager's table columns and its selections over the satellite list.
//!
//! The satellite list is a sequence of satellites with an "active" flag each; the logic here
//! sees a satellite by its NORAD catalog id.
use vstd::prelude::*;
use std::collections::HashMap;

verus! {

broadcast use vstd::std_specs::hash::group_hash_axioms;

/// A column of the satellite table.
#[derive(Debug, Clone, Copy, PartialEq, Eq, Hash, Structural)]
pub enum TableColumn {
    NoradId,
    Epoch,
    Name,
    Frequency,
    Show,
}

impl TableColumn {
    /// The column's heading.
    pub fn header(&self) -> (r: &'static str)
        ensures
            r@ == match *self {
                TableColumn::NoradId => "Norad ID"@,
                TableColumn::Epoch => "Epoch"@,
                TableColumn::Name => "Name"@,
                TableColumn::Frequency => "Frequency (MHz)"@,
                TableColumn::Show => "Show"@,
            },
    {
        match self {
            TableColumn::NoradId => "Norad ID",
            TableColumn::Epoch => "Epoch",
            TableColumn::Name => "Name",
            TableColumn::Frequency => "Frequency (MHz)",
            TableColumn::Show => "Show",
        }
    }

    /// Every column, in display order.
    pub fn all() -> (r: Vec<Self>)
        ensures
            r@ == seq![
                TableColumn::NoradId,
                TableColumn::Epoch,
                TableColumn::Name,
                TableColumn::Frequency,
                TableColumn::Show,
            ],
    {
        vec![
            TableColumn::NoradId,
            TableColumn::Epoch,
            TableColumn::Name,
            TableColumn::Frequency,
            TableColumn::Show,
        ]
    }
}

/// The ids of the active satellites, in list order.
pub open spec fn active_ids_spec(entries: Seq<(u64, bool)>) -> Seq<u64>
    decreases entries.len(),
{
    if entries.len() == 0 {
        seq![]
    } else {
        let rest = active_ids_spec(entries.drop_last());
        if entries.last().1 {
            rest.push(entries.last().0)
        } else {
            rest
        }
    }
}

/// The ids of the active satellites, in list order.
pub fn active_ids(entries: &Vec<(u64, bool)>) -> (r: Vec<u64>)
    ensures
        r@ == active_ids_spec(entries@),
{
    let mut out: Vec<u64> = Vec::new();
    let mut i: usize = 0;
    while i < entries.len()
        invariant
            i <= entries@.len(),
            out@ == active_ids_spec(entries@.take(i as int)),
        decreases entries@.len() - i,
    {
        proof {
            assert(entries@.take(i + 1).drop_last() =~= entries@.take(i as int));
        }
        if entries[i].1 {
            out.push(entries[i].0);
        }
        i = i + 1;
    }
    assert(entries@.take(entries@.len() as int) =~= entries@);
    out
}

/// The entries of the list whose active flag is set, in list order.
pub open spec fn active_spec<S>(entries: Seq<(S, bool)>) -> Seq<S>
    decreases entries.len(),
{
    if entries.len() == 0 {
        seq![]
    } else {
        let rest = active_spec(entries.drop_last());
        if entries.last().1 {
            rest.push(entries.last().0)
        } else {
            rest
        }
    }
}

/// Copies of the active entries of the list, in list order.
pub fn active_entries<S: Clone>(entries: &Vec<(S, bool)>) -> (r: Vec<S>)
    ensures
        r@.len() == active_spec(entries@).len(),
        forall|i: int| 0 <= i < r@.len() ==> cloned(active_spec(entries@)[i], #[trigger] r@[i]),
{
    let mut out: Vec<S> = Vec::new();
    let mut i: usize = 0;
    while i < entries.len()
        invariant
            i <= entries@.len(),
            out@.len() == active_spec(entries@.take(i as int)).len(),
            forall|j: int|
                0 <= j < out@.len() ==> cloned(active_spec(entries@.take(i as int))[j], #[trigger] out@[j]),
        decreases entries@.len() - i,
    {
        proof {
            assert(entries@.take(i + 1).drop_last() =~= entries@.take(i as int));
            assert(entries@.take(i + 1).last() == entries@[i as int]);
        }
        if entries[i].1 {
            let c = entries[i].0.clone();
            out.push(c);
        }
        i = i + 1;
    }
    assert(entries@.take(entries@.len() as int) =~= entries@);
    out
}

/// The satellites a Space-Track update asks for: every satellite, or only the active ones, each
/// as its catalog id truncated to the `u32` the query takes, with its index in the list.
pub open spec fn update_targets_spec(entries: Seq<(u64, bool)>, active_only: bool) -> Seq<
    (u32, usize),
>
    decreases entries.len(),
{
    if entries.len() == 0 {
        seq![]
    } else {
        let rest = update_targets_spec(entries.drop_last(), active_only);
        let last = entries.last();
        if !active_only || last.1 {
            rest.push((last.0 as u32, (entries.len() - 1) as usize))
        } else {
            rest
        }
    }
}

/// The list index that the reply for each requested id is written back to: the last entry with
/// that id, as successive map insertions leave it.
pub open spec fn index_map_spec(targets: Seq<(u32, usize)>) -> Map<u32, usize>
    decreases targets.len(),
{
    if targets.len() == 0 {
        Map::empty()
    } else {
        index_map_spec(targets.drop_last()).insert(targets.last().0, targets.last().1)
    }
}

/// The request of a Space-Track update and where each reply goes.
pub struct UpdateTargets {
    /// Catalog ids to request, in list order.
    pub norad_ids: Vec<u32>,
    /// List index for each requested id.
    pub index_of: HashMap<u32, usize>,
}

/// The ids to request from Space-Track and the list index each reply is written back to.
pub fn update_targets(entries: &Vec<(u64, bool)>, active_only: bool) -> (r: UpdateTargets)
    ensures
        r.norad_ids@ == update_targets_spec(entries@, active_only).map_values(|t: (u32, usize)| t.0),
        r.index_of@ == index_map_spec(update_targets_spec(entries@, active_only)),
{
    let mut ids: Vec<u32> = Vec::new();
    let mut index_of: HashMap<u32, usize> = HashMap::new();
    let mut i: usize = 0;
    while i < entries.len()
        invariant
            i <= entries@.len(),
            ids@ == update_targets_spec(entries@.take(i as int), active_only).map_values(
                |t: (u32, usize)| t.0,
            ),
            index_of@ == index_map_spec(update_targets_spec(entries@.take(i as int), active_only)),
        decreases entries@.len() - i,
    {
        let ghost prefix = entries@.take(i + 1);
        proof {
            assert(prefix.drop_last() =~= entries@.take(i as int));
            assert(prefix.last() == entries@[i as int]);
        }
        let (id, active) = entries[i];
        if !active_only || active {
            let short = id as u32;
            let ghost before = update_targets_spec(entries@.take(i as int), active_only);
            ids.push(short);
            index_of.insert(short, i);
            proof {
                let f = |t: (u32, usize)| t.0;
                assert(before.push((short, i)).map_values(f) =~= before.map_values(f).push(short));
                assert(before.push((short, i)).drop_last() =~= before);
            }
        }
        i = i + 1;
    }
    assert(entries@.take(entries@.len() as int) =~= entries@);
    UpdateTargets { norad_ids: ids, index_of }
}

/// The writes a Space-Track reply makes, in reply order: each reply whose elements could be
/// converted and whose id was requested writes them to the list index of that id; the others
/// are skipped.
pub open spec fn reply_writes_spec<E>(index_of: Map<u32, usize>, replies: Seq<(u32, Option<E>)>) -> Seq<
    (usize, E),
>
    decreases replies.len(),
{
    if replies.len() == 0 {
        seq![]
    } else {
        let rest = reply_writes_spec(index_of, replies.drop_last());
        let (id, elements) = replies.last();
        match elements {
            Some(e) => if index_of.contains_key(id) {
                rest.push((index_of[id], e))
            } else {
                rest
            },
            None => rest,
        }
    }
}

/// The list writes for the replies of a Space-Track update: `replies` holds each reply's catalog
/// id with its converted elements, if the conversion succeeded.
pub fn reply_writes<E>(index_of: &HashMap<u32, usize>, replies: Vec<(u32, Option<E>)>) -> (r: Vec<
    (usize, E),
>)
    ensures
        r@ == reply_writes_spec(index_of@, replies@),
{
    let ghost all = replies@;
    assert(all.len() == replies.len());
    let mut rest = replies;
    let mut out: Vec<(usize, E)> = Vec::new();
    let mut i: usize = 0;
    while rest.len() > 0
        invariant
            i + rest@.len() == all.len(),
            all.len() <= usize::MAX,
            rest@ == all.skip(i as int),
            out@ == reply_writes_spec(index_of@, all.take(i as int)),
        decreases rest@.len(),
    {
        let (id, elements) = rest.remove(0);
        proof {
            assert(all.take(i + 1).drop_last() =~= all.take(i as int));
            assert(all.take(i + 1).last() == (id, elements));
        }
        match elements {
            Some(e) => {
                match index_of.get(&id) {
                    Some(idx) => {
                        out.push((*idx, e));
                    },
                    None => {},
                }
            },
            None => {},
        }
        i = i + 1;
        assert(rest@ =~= all.skip(i as int));
    }
    assert(all.take(i as int) =~= all);
    out
}

} // verus!
