//! Chroma's pickled metadata: which user id and sequence id belong to a label.
use std::collections::HashMap;

use vstd::hash_map::StringHashMap;
use vstd::prelude::*;
use vstd::std_specs::hash::spec_hash_map_iter;
use vstd::std_specs::iter::IteratorSpec;

use crate::error::{ExtractError, MetadataError};

verus! {

broadcast use vstd::std_specs::hash::group_hash_axioms;

/// The metadata that Chroma keeps for one label.
#[derive(Debug, Clone, PartialEq, Eq)]
pub struct MetadataEntry {
    pub user_id: String,
    pub seq_id: Option<u64>,
}

/// The map that inserting `pairs` one after the other, front to back, builds:
/// a later pair with the same label replaces an earlier one.
pub open spec fn label_table(pairs: Seq<(u64, String)>) -> Map<u64, String>
    decreases pairs.len(),
{
    if pairs.len() == 0 {
        Map::empty()
    } else {
        label_table(pairs.drop_last()).insert(pairs.last().0, pairs.last().1)
    }
}

/// The map from user id to sequence id that inserting `pairs` front to back builds.
pub open spec fn seq_id_table(pairs: Seq<(String, u64)>) -> Map<Seq<char>, u64>
    decreases pairs.len(),
{
    if pairs.len() == 0 {
        Map::empty()
    } else {
        seq_id_table(pairs.drop_last()).insert(pairs.last().0@, pairs.last().1)
    }
}

/// The entry of a label whose user id is `user_id`: the sequence id is the one that
/// `seq_ids` holds for that user id, if any.
pub open spec fn joined_entry(user_id: String, seq_ids: Map<Seq<char>, u64>) -> MetadataEntry {
    MetadataEntry {
        user_id,
        seq_id: if seq_ids.contains_key(user_id@) {
            Some(seq_ids[user_id@])
        } else {
            None
        },
    }
}

/// Whether `m` holds exactly the labels of `labels`, each with its joined entry.
pub open spec fn is_join_of(
    m: Map<u64, MetadataEntry>,
    labels: Map<u64, String>,
    seq_ids: Map<Seq<char>, u64>,
) -> bool {
    &&& m.dom() =~= labels.dom()
    &&& forall|l: u64| #[trigger] m.contains_key(l) ==> m[l] == joined_entry(labels[l], seq_ids)
}

/// The label pairs with every label read as unsigned.
pub open spec fn unsigned_labels(pairs: Seq<(i64, String)>) -> Seq<(u64, String)> {
    pairs.map_values(|p: (i64, String)| (p.0 as u64, p.1))
}

/// The sequence-id pairs with every sequence id read as unsigned.
pub open spec fn unsigned_seq_ids(pairs: Seq<(String, i64)>) -> Seq<(String, u64)> {
    pairs.map_values(|p: (String, i64)| (p.0, p.1 as u64))
}

/// Whether `k` is the first position of `pairs` that holds a negative label.
pub open spec fn first_negative_label(pairs: Seq<(i64, String)>, k: int) -> bool {
    &&& 0 <= k < pairs.len()
    &&& pairs[k].0 < 0
    &&& forall|j: int| 0 <= j < k ==> pairs[j].0 >= 0
}

/// Whether `k` is the first position of `pairs` that holds a negative sequence id.
pub open spec fn first_negative_seq_id(pairs: Seq<(String, i64)>, k: int) -> bool {
    &&& 0 <= k < pairs.len()
    &&& pairs[k].1 < 0
    &&& forall|j: int| 0 <= j < k ==> pairs[j].1 >= 0
}

/// The labels of a label table are exactly the labels of its pairs, and each label maps
/// to the user id of the last pair that holds it.
pub proof fn lemma_label_table(pairs: Seq<(u64, String)>)
    ensures
        forall|l: u64|
            #[trigger] label_table(pairs).contains_key(l) <==> exists|k: int|
                0 <= k < pairs.len() && pairs[k].0 == l,
        forall|k: int|
            0 <= k < pairs.len() && (forall|j: int| k < j < pairs.len() ==> pairs[j].0 != pairs[k].0)
                ==> label_table(pairs)[#[trigger] pairs[k].0] == pairs[k].1,
    decreases pairs.len(),
{
    if pairs.len() > 0 {
        let init = pairs.drop_last();
        lemma_label_table(init);
        assert forall|l: u64|
            #[trigger] label_table(pairs).contains_key(l) implies exists|k: int|
                0 <= k < pairs.len() && pairs[k].0 == l by {
            if l != pairs.last().0 {
                assert(label_table(init).contains_key(l));
                let k = choose|k: int| 0 <= k < init.len() && init[k].0 == l;
                assert(pairs[k].0 == l);
            } else {
                assert(pairs[pairs.len() - 1].0 == l);
            }
        }
        assert forall|l: u64|
            (exists|k: int| 0 <= k < pairs.len() && pairs[k].0 == l) implies #[trigger] label_table(
            pairs,
        ).contains_key(l) by {
            let k = choose|k: int| 0 <= k < pairs.len() && pairs[k].0 == l;
            if k < pairs.len() - 1 {
                assert(init[k].0 == l);
                assert(label_table(init).contains_key(l));
            }
        }
        assert forall|k: int|
            0 <= k < pairs.len() && (forall|j: int| k < j < pairs.len() ==> pairs[j].0 != pairs[k].0)
                implies label_table(pairs)[#[trigger] pairs[k].0] == pairs[k].1 by {
            if k < pairs.len() - 1 {
                assert(init[k] == pairs[k]);
                assert forall|j: int| k < j < init.len() implies init[j].0 != init[k].0 by {
                    assert(init[j] == pairs[j]);
                }
            }
        }
    }
}

/// Gives every label of `label_to_id` its user id and, where `id_to_seq_id` has one for
/// that user id, its sequence id.
///
/// The sequence-id pairs are read front to back; where a user id occurs twice the later
/// pair counts.
pub fn join_metadata(label_to_id: HashMap<u64, String>, id_to_seq_id: Vec<(String, u64)>) -> (r:
    HashMap<u64, MetadataEntry>)
    ensures
        is_join_of(r@, label_to_id@, seq_id_table(id_to_seq_id@)),
{
    let mut seq_ids: StringHashMap<u64> = StringHashMap::with_capacity(id_to_seq_id.len());
    let n = id_to_seq_id.len();
    for i in 0..n
        invariant
            n == id_to_seq_id@.len(),
            seq_ids@ == seq_id_table(id_to_seq_id@.take(i as int)),
    {
        let user_id = id_to_seq_id[i].0.clone();
        let seq_id = id_to_seq_id[i].1;
        seq_ids.insert(user_id, seq_id);
        assert(id_to_seq_id@.take(i + 1).drop_last() =~= id_to_seq_id@.take(i as int));
    }
    assert(id_to_seq_id@.take(n as int) =~= id_to_seq_id@);

    let ghost ids = seq_id_table(id_to_seq_id@);
    let mut out: HashMap<u64, MetadataEntry> = HashMap::with_capacity(label_to_id.len());
    for (label, user_id) in iter: label_to_id.iter()
        invariant
            seq_ids@ == ids,
            iter.seq() == spec_hash_map_iter(&label_to_id).remaining(),
            forall|k: u64|
                #[trigger] out@.contains_key(k) ==> label_to_id@.contains_key(k) && out@[k]
                    == joined_entry(label_to_id@[k], ids),
            forall|j: int| 0 <= j < iter.index() ==> out@.contains_key(*(#[trigger] iter.seq()[j]).0),
    {
        let user_id = user_id.clone();
        let seq_id = match seq_ids.get(user_id.as_str()) {
            Some(s) => Some(*s),
            None => None,
        };
        out.insert(*label, MetadataEntry { user_id, seq_id });
    }
    proof {
        let v = spec_hash_map_iter(&label_to_id).remaining();
        assert forall|k: u64| #[trigger] label_to_id@.contains_key(k) implies out@.contains_key(k) by {
            assert(v.contains((&k, &label_to_id@[k])));
            let j = choose|j: int| 0 <= j < v.len() && v[j] == (&k, &label_to_id@[k]);
            assert(*v[j].0 == k);
        }
    }
    assert(out@.dom() =~= label_to_id@.dom());
    out
}

/// Joins tables whose labels and sequence ids were pickled as signed integers.
///
/// The first negative label, else the first negative sequence id, is refused; otherwise
/// the tables are read as unsigned and joined as [`join_metadata`] does.
pub fn join_signed_metadata(label_to_id: Vec<(i64, String)>, id_to_seq_id: Vec<(String, i64)>) -> (r:
    Result<HashMap<u64, MetadataEntry>, ExtractError>)
    ensures
        forall|k: int|
            first_negative_label(label_to_id@, k) ==> r == Err::<
                HashMap<u64, MetadataEntry>,
                ExtractError,
            >(ExtractError::Metadata(MetadataError::NegativeLabel { label: label_to_id@[k].0 })),
        (forall|j: int| 0 <= j < label_to_id@.len() ==> label_to_id@[j].0 >= 0) ==> {
            &&& forall|k: int|
                first_negative_seq_id(id_to_seq_id@, k) ==> r == Err::<
                    HashMap<u64, MetadataEntry>,
                    ExtractError,
                >(
                    ExtractError::Metadata(
                        MetadataError::NegativeSeqId {
                            seq_id: id_to_seq_id@[k].1,
                            user_id: id_to_seq_id@[k].0,
                        },
                    ),
                )
            &&& (forall|j: int| 0 <= j < id_to_seq_id@.len() ==> id_to_seq_id@[j].1 >= 0) ==> (
            r matches Ok(m) && is_join_of(
                m@,
                label_table(unsigned_labels(label_to_id@)),
                seq_id_table(unsigned_seq_ids(id_to_seq_id@)),
            ))
        },
{
    let mut labels: HashMap<u64, String> = HashMap::with_capacity(label_to_id.len());
    let m = label_to_id.len();
    for i in 0..m
        invariant
            m == label_to_id@.len(),
            labels@ == label_table(unsigned_labels(label_to_id@.take(i as int))),
            forall|j: int| 0 <= j < i ==> label_to_id@[j].0 >= 0,
    {
        let label = label_to_id[i].0;
        if label < 0 {
            assert(first_negative_label(label_to_id@, i as int));
            proof {
                assert forall|k: int| first_negative_label(label_to_id@, k) implies k == i by {
                    if k < i {
                    } else if k > i {
                        assert(label_to_id@[i as int].0 >= 0);
                    }
                }
            }
            return Err(ExtractError::Metadata(MetadataError::NegativeLabel { label }));
        }
        labels.insert(label as u64, label_to_id[i].1.clone());
        assert(unsigned_labels(label_to_id@.take(i + 1)).drop_last() =~= unsigned_labels(
            label_to_id@.take(i as int),
        ));
    }
    assert(label_to_id@.take(m as int) =~= label_to_id@);

    let mut ids: Vec<(String, u64)> = Vec::with_capacity(id_to_seq_id.len());
    let n = id_to_seq_id.len();
    for i in 0..n
        invariant
            n == id_to_seq_id@.len(),
            ids@ == unsigned_seq_ids(id_to_seq_id@.take(i as int)),
            forall|j: int| 0 <= j < i ==> id_to_seq_id@[j].1 >= 0,
            forall|j: int| 0 <= j < label_to_id@.len() ==> label_to_id@[j].0 >= 0,
    {
        let seq_id = id_to_seq_id[i].1;
        if seq_id < 0 {
            let user_id = id_to_seq_id[i].0.clone();
            proof {
                assert forall|k: int| first_negative_seq_id(id_to_seq_id@, k) implies k == i by {
                    if k < i {
                    } else if k > i {
                        assert(id_to_seq_id@[i as int].1 >= 0);
                    }
                }
            }
            return Err(ExtractError::Metadata(MetadataError::NegativeSeqId { seq_id, user_id }));
        }
        ids.push((id_to_seq_id[i].0.clone(), seq_id as u64));
        assert(id_to_seq_id@.take(i + 1) =~= id_to_seq_id@.take(i as int).push(id_to_seq_id@[i as int]));
        assert(ids@ =~= unsigned_seq_ids(id_to_seq_id@.take(i + 1)));
    }
    assert(id_to_seq_id@.take(n as int) =~= id_to_seq_id@);
    proof {
        assert forall|k: int| !first_negative_label(label_to_id@, k) by {}
        assert forall|k: int| !first_negative_seq_id(id_to_seq_id@, k) by {}
    }
    Ok(join_metadata(labels, ids))
}

} // verus!
