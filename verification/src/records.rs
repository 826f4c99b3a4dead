//! The shapes in which pairs and pair groups are kept in files: a pair as its
//! flat projection, a group with the ids of its pairs in place of the pairs.

use vstd::prelude::*;
use crate::entities::{Pair, PairGroup, PairGroupView, PairView};

verus! {

/// The stored form of a pair: the same fields as the pair itself.
#[derive(Clone, Debug, PartialEq, Eq)]
pub struct FileSystemPair {
    pub id: String,
    pub base: String,
    pub comparison: String,
    pub value: u64,
    pub created_at: String,
    pub updated_at: String,
}

impl View for FileSystemPair {
    type V = PairView;

    open spec fn view(&self) -> PairView {
        PairView {
            id: self.id@,
            base: self.base@,
            comparison: self.comparison@,
            value: self.value,
            created_at: self.created_at@,
            updated_at: self.updated_at@,
        }
    }
}

impl FileSystemPair {
    /// The record that stores `pair`.
    pub fn from_pair(pair: &Pair) -> (record: FileSystemPair)
        ensures
            record@ == pair@,
    {
        FileSystemPair {
            id: pair.id.clone(),
            base: pair.base.clone(),
            comparison: pair.comparison.clone(),
            value: pair.value,
            created_at: pair.created_at.clone(),
            updated_at: pair.updated_at.clone(),
        }
    }

    /// The pair that this record stores.
    pub fn to_pair(&self) -> (pair: Pair)
        ensures
            pair@ == self@,
    {
        Pair {
            id: self.id.clone(),
            base: self.base.clone(),
            comparison: self.comparison.clone(),
            value: self.value,
            created_at: self.created_at.clone(),
            updated_at: self.updated_at.clone(),
        }
    }
}

/// What a [`FileSystemPairGroup`] is in contracts.
pub struct GroupRecordView {
    pub id: Seq<char>,
    pub is_pinned: bool,
    pub pairs: Seq<Seq<char>>,
    pub created_at: Seq<char>,
    pub updated_at: Seq<char>,
}

/// The stored form of a pair group: its pairs are named by id, in order.
#[derive(Clone, Debug, PartialEq, Eq)]
pub struct FileSystemPairGroup {
    pub id: String,
    pub is_pinned: bool,
    pub pairs: Vec<String>,
    pub created_at: String,
    pub updated_at: String,
}

impl View for FileSystemPairGroup {
    type V = GroupRecordView;

    open spec fn view(&self) -> GroupRecordView {
        GroupRecordView {
            id: self.id@,
            is_pinned: self.is_pinned,
            pairs: self.pairs@.map_values(|id: String| id@),
            created_at: self.created_at@,
            updated_at: self.updated_at@,
        }
    }
}

/// The record of a group: the group with each pair replaced by its id.
pub open spec fn record_of(group: PairGroupView) -> GroupRecordView {
    GroupRecordView {
        id: group.id,
        is_pinned: group.is_pinned,
        pairs: group.pairs.map_values(|p: PairView| p.id),
        created_at: group.created_at,
        updated_at: group.updated_at,
    }
}

/// The group that a record and the pairs read for its ids make up.
pub open spec fn assemble(record: GroupRecordView, pairs: Seq<PairView>) -> PairGroupView {
    PairGroupView {
        id: record.id,
        is_pinned: record.is_pinned,
        pairs: pairs,
        created_at: record.created_at,
        updated_at: record.updated_at,
    }
}

impl FileSystemPairGroup {
    /// The record that stores `group`: its own fields and the ids of its pairs
    /// in the order in which the group holds them.
    pub fn from_pair_group(group: &PairGroup) -> (record: FileSystemPairGroup)
        ensures
            record@ == record_of(group@),
    {
        let mut ids: Vec<String> = Vec::new();
        let mut i: usize = 0;
        while i < group.pairs.len()
            invariant
                i <= group.pairs.len(),
                ids@.len() == i,
                forall|k: int| 0 <= k < i ==> (#[trigger] ids@[k])@ == group.pairs@[k].id@,
            decreases group.pairs.len() - i,
        {
            ids.push(group.pairs[i].id.clone());
            i += 1;
        }
        let record = FileSystemPairGroup {
            id: group.id.clone(),
            is_pinned: group.is_pinned,
            pairs: ids,
            created_at: group.created_at.clone(),
            updated_at: group.updated_at.clone(),
        };
        assert(record@.pairs =~= record_of(group@).pairs);
        record
    }
}

} // verus!
