//! The record store: the image of a root directory with its two
//! subdirectories, and the rules by which pair groups are written to it and
//! read back with their pairs.

use vstd::prelude::*;
use crate::directory::{
    distinct_names, file_names, has_file, read_file, with_file, Directory, FileView,
};
use crate::entities::{missing_group_message, Error, Pair, PairGroup, PairGroupView, PairView};
use crate::records::{assemble, record_of, FileSystemPair, FileSystemPairGroup, GroupRecordView};

verus! {

/// The name of the subdirectory that holds one file per pair.
pub const PAIRS_DIR_NAME: &'static str = "pairs";

/// The name of the subdirectory that holds one file per pair group.
pub const PAIR_GROUPS_DIR_NAME: &'static str = "pair_groups";

/// One of the two subdirectories of the root.
#[derive(Clone, Copy, Debug, PartialEq, Eq)]
pub enum DirectoryKind {
    Pairs,
    PairGroups,
}

impl DirectoryKind {
    /// The name of the subdirectory under the root.
    pub fn dir_name(self) -> (name: &'static str)
        ensures
            name@ == match self {
                DirectoryKind::Pairs => PAIRS_DIR_NAME@,
                DirectoryKind::PairGroups => PAIR_GROUPS_DIR_NAME@,
            },
    {
        match self {
            DirectoryKind::Pairs => PAIRS_DIR_NAME,
            DirectoryKind::PairGroups => PAIR_GROUPS_DIR_NAME,
        }
    }
}

/// What a [`WrittenFile`] is in contracts.
pub struct WrittenFileView {
    pub directory: DirectoryKind,
    pub name: Seq<char>,
}

/// A file that a write has replaced or created.
#[derive(Clone, Debug, PartialEq, Eq)]
pub struct WrittenFile {
    pub directory: DirectoryKind,
    pub name: String,
}

impl View for WrittenFile {
    type V = WrittenFileView;

    open spec fn view(&self) -> WrittenFileView {
        WrittenFileView { directory: self.directory, name: self.name@ }
    }
}

/// What a [`RootDirectory`] is in contracts.
pub struct RootView {
    pub pairs: Seq<FileView<PairView>>,
    pub pair_groups: Seq<FileView<GroupRecordView>>,
    pub journal: Seq<WrittenFileView>,
}

/// The image of the root directory: the files of its two subdirectories, and
/// the journal of the files written since the image was made, oldest first.
pub struct RootDirectory {
    pub pairs: Directory<FileSystemPair>,
    pub pair_groups: Directory<FileSystemPairGroup>,
    pub journal: Vec<WrittenFile>,
}

impl View for RootDirectory {
    type V = RootView;

    open spec fn view(&self) -> RootView {
        RootView {
            pairs: self.pairs@,
            pair_groups: self.pair_groups@,
            journal: self.journal@.map_values(|w: WrittenFile| w@),
        }
    }
}

/// Neither subdirectory of `root` holds two files of one name.
pub open spec fn well_formed(root: RootView) -> bool {
    distinct_names(root.pairs) && distinct_names(root.pair_groups)
}

impl RootDirectory {
    /// Neither subdirectory holds two files of one name.
    pub open spec fn wf(&self) -> bool {
        well_formed(self@)
    }

    /// A root with two empty subdirectories and nothing written.
    pub fn new() -> (root: Self)
        ensures
            root.wf(),
            root@.pairs == Seq::<FileView<PairView>>::empty(),
            root@.pair_groups == Seq::<FileView<GroupRecordView>>::empty(),
            root@.journal == Seq::<WrittenFileView>::empty(),
    {
        let root = RootDirectory {
            pairs: Directory::new(),
            pair_groups: Directory::new(),
            journal: Vec::new(),
        };
        assert(root@.journal =~= Seq::<WrittenFileView>::empty());
        root
    }
}

/// The pair stored under `id`.
pub open spec fn stored_pair(root: RootView, id: Seq<char>) -> Result<PairView, Seq<char>> {
    read_file(root.pairs, id)
}

/// The pairs stored under `ids`, in that order, or the first failure.
pub open spec fn stored_pairs(root: RootView, ids: Seq<Seq<char>>) -> Result<
    Seq<PairView>,
    Seq<char>,
>
    decreases ids.len(),
{
    if ids.len() == 0 {
        Ok(Seq::empty())
    } else {
        match stored_pairs(root, ids.drop_last()) {
            Err(message) => Err(message),
            Ok(pairs) => match stored_pair(root, ids.last()) {
                Err(message) => Err(message),
                Ok(pair) => Ok(pairs.push(pair)),
            },
        }
    }
}

/// The pair group stored under `id`, each of its pairs read from the pair's
/// own file.
pub open spec fn stored_pair_group(root: RootView, id: Seq<char>) -> Result<
    PairGroupView,
    Seq<char>,
> {
    match read_file(root.pair_groups, id) {
        Err(message) => Err(message),
        Ok(record) => match stored_pairs(root, record.pairs) {
            Err(message) => Err(message),
            Ok(pairs) => Ok(assemble(record, pairs)),
        },
    }
}

/// The groups of the first `n` files of the pair-group listing, in the
/// listing's order, or the first failure.
pub open spec fn listed_pair_groups(root: RootView, n: nat) -> Result<
    Seq<PairGroupView>,
    Seq<char>,
>
    decreases n,
{
    if n == 0 || n > root.pair_groups.len() {
        Ok(Seq::empty())
    } else {
        match listed_pair_groups(root, (n - 1) as nat) {
            Err(message) => Err(message),
            Ok(groups) => match stored_pair_group(root, root.pair_groups[n - 1].name) {
                Err(message) => Err(message),
                Ok(group) => Ok(groups.push(group)),
            },
        }
    }
}

/// Every stored pair group, in the listing's order, or the first failure.
pub open spec fn all_pair_groups(root: RootView) -> Result<Seq<PairGroupView>, Seq<char>> {
    listed_pair_groups(root, root.pair_groups.len())
}

/// The root after `pair` was written to its own file.
pub open spec fn after_write_pair(root: RootView, pair: PairView) -> RootView {
    RootView {
        pairs: with_file(root.pairs, pair.id, Ok(pair)),
        pair_groups: root.pair_groups,
        journal: root.journal.push(
            WrittenFileView { directory: DirectoryKind::Pairs, name: pair.id },
        ),
    }
}

/// The root after each of `pairs` was written, first to last.
pub open spec fn after_write_pairs(root: RootView, pairs: Seq<PairView>) -> RootView
    decreases pairs.len(),
{
    if pairs.len() == 0 {
        root
    } else {
        after_write_pair(after_write_pairs(root, pairs.drop_last()), pairs.last())
    }
}

/// The root after `group` was written: all of its pairs first, then the
/// group's own record.
pub open spec fn after_write_pair_group(root: RootView, group: PairGroupView) -> RootView {
    let pairs_written = after_write_pairs(root, group.pairs);
    RootView {
        pairs: pairs_written.pairs,
        pair_groups: with_file(pairs_written.pair_groups, group.id, Ok(record_of(group))),
        journal: pairs_written.journal.push(
            WrittenFileView { directory: DirectoryKind::PairGroups, name: group.id },
        ),
    }
}

/// What a result with a pair in it is in contracts.
pub open spec fn pair_outcome(result: Result<Pair, Error>) -> Result<PairView, Seq<char>> {
    match result {
        Ok(pair) => Ok(pair@),
        Err(e) => Err(e.message@),
    }
}

/// What a result with a pair group in it is in contracts.
pub open spec fn group_outcome(result: Result<PairGroup, Error>) -> Result<
    PairGroupView,
    Seq<char>,
> {
    match result {
        Ok(group) => Ok(group@),
        Err(e) => Err(e.message@),
    }
}

/// What a result with a list of pair groups in it is in contracts.
pub open spec fn groups_outcome(result: Result<Vec<PairGroup>, Error>) -> Result<
    Seq<PairGroupView>,
    Seq<char>,
> {
    match result {
        Ok(groups) => Ok(groups@.map_values(|g: PairGroup| g@)),
        Err(e) => Err(e.message@),
    }
}

/// A failure among the first `k` ids is the failure of the whole list.
pub proof fn lemma_stored_pairs_first_failure(root: RootView, ids: Seq<Seq<char>>, k: int)
    requires
        0 <= k <= ids.len(),
        stored_pairs(root, ids.take(k)) is Err,
    ensures
        stored_pairs(root, ids) == stored_pairs(root, ids.take(k)),
    decreases ids.len() - k,
{
    if k < ids.len() {
        assert(ids.take(k + 1).drop_last() =~= ids.take(k));
        lemma_stored_pairs_first_failure(root, ids, k + 1);
    } else {
        assert(ids.take(k) =~= ids);
    }
}

/// A failure among the first `k` listed groups is the failure of the listing.
pub proof fn lemma_listed_first_failure(root: RootView, k: nat)
    requires
        k <= root.pair_groups.len(),
        listed_pair_groups(root, k) is Err,
    ensures
        all_pair_groups(root) == listed_pair_groups(root, k),
    decreases root.pair_groups.len() - k,
{
    if k < root.pair_groups.len() {
        lemma_listed_first_failure(root, k + 1);
    }
}

/// Reads the pair stored under `id` from its own file.
pub fn read_pair(root: &RootDirectory, id: &str) -> (result: Result<Pair, Error>)
    requires
        root.wf(),
    ensures
        pair_outcome(result) == stored_pair(root@, id@),
{
    match root.pairs.get(id) {
        None => Err(Error::not_found()),
        Some(content) => match content {
            Ok(record) => Ok(record.to_pair()),
            Err(message) => Err(Error { message: message.clone() }),
        },
    }
}

/// Reads the pair group stored under `id` and, for each pair id that its
/// record names, the pair's own file, in the record's order.
pub fn read_pair_group(root: &RootDirectory, id: &str) -> (result: Result<PairGroup, Error>)
    requires
        root.wf(),
    ensures
        group_outcome(result) == stored_pair_group(root@, id@),
{
    let record = match root.pair_groups.get(id) {
        None => {
            return Err(Error::not_found());
        },
        Some(content) => match content {
            Ok(record) => record,
            Err(message) => {
                return Err(Error { message: message.clone() });
            },
        },
    };
    let ghost ids = record@.pairs;
    let mut pairs: Vec<Pair> = Vec::new();
    let mut i: usize = 0;
    assert(ids.take(0) =~= Seq::<Seq<char>>::empty());
    assert(pairs@.map_values(|p: Pair| p@) =~= Seq::<PairView>::empty());
    while i < record.pairs.len()
        invariant
            root.wf(),
            i <= record.pairs.len(),
            ids == record@.pairs,
            ids.len() == record.pairs.len(),
            read_file(root@.pair_groups, id@) == Ok::<GroupRecordView, Seq<char>>(record@),
            stored_pairs(root@, ids.take(i as int)) == Ok::<Seq<PairView>, Seq<char>>(
                pairs@.map_values(|p: Pair| p@),
            ),
        decreases record.pairs.len() - i,
    {
        let ghost read_so_far = pairs@.map_values(|p: Pair| p@);
        proof {
            assert(ids.take(i + 1).drop_last() =~= ids.take(i as int));
            assert(ids.take(i + 1).last() == record.pairs@[i as int]@);
        }
        match read_pair(root, record.pairs[i].as_str()) {
            Ok(pair) => {
                pairs.push(pair);
                assert(pairs@.map_values(|p: Pair| p@) =~= read_so_far.push(pair@));
            },
            Err(e) => {
                proof {
                    lemma_stored_pairs_first_failure(root@, ids, i + 1);
                }
                return Err(e);
            },
        }
        i += 1;
    }
    assert(ids.take(i as int) =~= ids);
    Ok(
        PairGroup {
            id: record.id.clone(),
            is_pinned: record.is_pinned,
            pairs,
            created_at: record.created_at.clone(),
            updated_at: record.updated_at.clone(),
        },
    )
}

/// Writes `pair` to the file named by its id, in place of what that file
/// held, and notes the file in the journal. A write to the image always
/// succeeds; a failure can only come up when the journal is carried out.
pub fn write_pair(root: &mut RootDirectory, pair: &Pair) -> (result: Result<(), Error>)
    requires
        old(root).wf(),
    ensures
        result is Ok,
        final(root).wf(),
        final(root)@ == after_write_pair(old(root)@, pair@),
{
    let ghost journal = root@.journal;
    root.pairs.put(pair.id.clone(), Ok(FileSystemPair::from_pair(pair)));
    root.journal.push(WrittenFile { directory: DirectoryKind::Pairs, name: pair.id.clone() });
    assert(root@.journal =~= journal.push(
        WrittenFileView { directory: DirectoryKind::Pairs, name: pair@.id },
    ));
    Ok(())
}

/// Writes every pair of `pair_group` to its own file, first to last, and then
/// the group's record, which names the pairs by id in the same order.
pub fn write_pair_group(root: &mut RootDirectory, pair_group: &PairGroup) -> (result: Result<
    (),
    Error,
>)
    requires
        old(root).wf(),
    ensures
        result is Ok,
        final(root).wf(),
        final(root)@ == after_write_pair_group(old(root)@, pair_group@),
{
    let ghost before = root@;
    let ghost all = pair_group@.pairs;
    let mut i: usize = 0;
    assert(all.take(0) =~= Seq::<PairView>::empty());
    while i < pair_group.pairs.len()
        invariant
            root.wf(),
            i <= pair_group.pairs.len(),
            all == pair_group@.pairs,
            root@ == after_write_pairs(before, all.take(i as int)),
        decreases pair_group.pairs.len() - i,
    {
        proof {
            assert(all.take(i + 1).drop_last() =~= all.take(i as int));
            assert(all.take(i + 1).last() == pair_group.pairs@[i as int]@);
        }
        match write_pair(root, &pair_group.pairs[i]) {
            Ok(()) => {},
            Err(e) => {
                return Err(e);
            },
        }
        i += 1;
    }
    assert(all.take(i as int) =~= all);
    let ghost journal = root@.journal;
    root.pair_groups.put(
        pair_group.id.clone(),
        Ok(FileSystemPairGroup::from_pair_group(pair_group)),
    );
    root.journal.push(
        WrittenFile { directory: DirectoryKind::PairGroups, name: pair_group.id.clone() },
    );
    assert(root@.journal =~= journal.push(
        WrittenFileView { directory: DirectoryKind::PairGroups, name: pair_group@.id },
    ));
    Ok(())
}

/// The names of the files of one subdirectory.
pub open spec fn listed_names(root: RootView, kind: DirectoryKind) -> Seq<Seq<char>> {
    match kind {
        DirectoryKind::Pairs => file_names(root.pairs),
        DirectoryKind::PairGroups => file_names(root.pair_groups),
    }
}

/// The names of the files of one subdirectory, in the listing's order.
pub fn get_dir_entries(root: &RootDirectory, kind: DirectoryKind) -> (names: Vec<String>)
    ensures
        names@.len() == listed_names(root@, kind).len(),
        forall|i: int|
            0 <= i < names@.len() ==> (#[trigger] names@[i])@ == listed_names(root@, kind)[i],
{
    match kind {
        DirectoryKind::Pairs => root.pairs.names(),
        DirectoryKind::PairGroups => root.pair_groups.names(),
    }
}

/// The store's face to its callers: listing every pair group with its pairs,
/// and updating a group that exists.
pub struct FileSystemDataAccess {
    pub root: RootDirectory,
}

/// The root and the outcome of an update of `group`: a write where the
/// group's record exists, else the failure and the root as it was.
pub open spec fn after_update(root: RootView, group: PairGroupView) -> (
    RootView,
    Result<(), Seq<char>>,
) {
    if has_file(root.pair_groups, group.id) {
        (after_write_pair_group(root, group), Ok(()))
    } else {
        (root, Err(missing_group_message()))
    }
}

/// What the result of a write is in contracts.
pub open spec fn unit_outcome(result: Result<(), Error>) -> Result<(), Seq<char>> {
    match result {
        Ok(_) => Ok(()),
        Err(e) => Err(e.message@),
    }
}

impl FileSystemDataAccess {
    /// Reads every pair group of the listing, in its order, each with its
    /// pairs; the first failure ends the listing.
    pub fn fetch_pair_groups(&mut self) -> (result: Result<Vec<PairGroup>, Error>)
        requires
            old(self).root.wf(),
        ensures
            *final(self) == *old(self),
            groups_outcome(result) == all_pair_groups(old(self).root@),
    {
        let mut pair_groups: Vec<PairGroup> = Vec::new();
        let entries = get_dir_entries(&self.root, DirectoryKind::PairGroups);
        let mut i: usize = 0;
        assert(pair_groups@.map_values(|g: PairGroup| g@) =~= Seq::<PairGroupView>::empty());
        while i < entries.len()
            invariant
                *self == *old(self),
                self.root.wf(),
                i <= entries@.len(),
                entries@.len() == self.root@.pair_groups.len(),
                forall|k: int|
                    0 <= k < entries@.len() ==> (#[trigger] entries@[k])@
                        == self.root@.pair_groups[k].name,
                listed_pair_groups(self.root@, i as nat) == Ok::<Seq<PairGroupView>, Seq<char>>(
                    pair_groups@.map_values(|g: PairGroup| g@),
                ),
            decreases entries@.len() - i,
        {
            let ghost read_so_far = pair_groups@.map_values(|g: PairGroup| g@);
            match read_pair_group(&self.root, entries[i].as_str()) {
                Ok(pair_group) => {
                    pair_groups.push(pair_group);
                    assert(pair_groups@.map_values(|g: PairGroup| g@) =~= read_so_far.push(
                        pair_group@,
                    ));
                },
                Err(e) => {
                    proof {
                        lemma_listed_first_failure(self.root@, (i + 1) as nat);
                    }
                    return Err(e);
                },
            }
            i += 1;
        }
        Ok(pair_groups)
    }

    /// Writes `pair_group` over the group stored under its id. A group that
    /// was never written is not created: the call fails and nothing changes.
    pub fn update_pair_group(&mut self, pair_group: &PairGroup) -> (result: Result<(), Error>)
        requires
            old(self).root.wf(),
        ensures
            final(self).root.wf(),
            final(self).root@ == after_update(old(self).root@, pair_group@).0,
            unit_outcome(result) == after_update(old(self).root@, pair_group@).1,
            result is Err ==> *final(self) == *old(self),
    {
        match self.root.pair_groups.find(pair_group.id.as_str()) {
            None => Err(Error::missing_group()),
            Some(_) => write_pair_group(&mut self.root, pair_group),
        }
    }
}

} // verus!
