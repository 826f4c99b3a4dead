//! What holds of the store across several operations: that a written group
//! reads back as written, that an update replaces, that a dangling pair id
//! fails the read, that a second identical write changes nothing, and how
//! many groups a listing gives.

use vstd::prelude::*;
use crate::directory::{
    distinct_names, has_file, lemma_file_at_place, lemma_with_file, position_of, read_file,
    with_file,
};
use crate::entities::{missing_group_message, PairGroupView, PairView};
use crate::records::{record_of, GroupRecordView};
use crate::store::{
    after_update, after_write_pair_group, after_write_pairs, all_pair_groups, listed_pair_groups,
    stored_pair, stored_pair_group, stored_pairs, well_formed, RootView,
};

verus! {

/// The last of `pairs` whose id is `id`, if there is one.
pub open spec fn last_written(pairs: Seq<PairView>, id: Seq<char>) -> Option<PairView>
    decreases pairs.len(),
{
    if pairs.len() == 0 {
        None
    } else if pairs.last().id == id {
        Some(pairs.last())
    } else {
        last_written(pairs.drop_last(), id)
    }
}

/// Pairs of one id are one pair: no id stands for two different contents.
pub open spec fn one_pair_per_id(pairs: Seq<PairView>) -> bool {
    forall|i: int, j: int|
        0 <= i < pairs.len() && 0 <= j < pairs.len() && (#[trigger] pairs[i]).id == (
        #[trigger] pairs[j]).id ==> pairs[i] == pairs[j]
}

/// The last pair written under an id is one of the pairs and has that id;
/// there is none exactly when no pair has the id.
pub proof fn lemma_last_written(pairs: Seq<PairView>, id: Seq<char>)
    ensures
        match last_written(pairs, id) {
            Some(p) => p.id == id && exists|j: int|
                0 <= j < pairs.len() && #[trigger] pairs[j] == p,
            None => forall|j: int| 0 <= j < pairs.len() ==> (#[trigger] pairs[j]).id != id,
        },
    decreases pairs.len(),
{
    if pairs.len() > 0 {
        if pairs.last().id == id {
            assert(pairs[pairs.len() - 1] == pairs.last());
        } else {
            lemma_last_written(pairs.drop_last(), id);
            match last_written(pairs.drop_last(), id) {
                Some(p) => {
                    let j = choose|j: int|
                        0 <= j < pairs.drop_last().len() && #[trigger] pairs.drop_last()[j] == p;
                    assert(pairs[j] == p);
                },
                None => {
                    assert forall|j: int| 0 <= j < pairs.len() implies (#[trigger] pairs[j]).id
                        != id by {
                        if j < pairs.len() - 1 {
                            assert(pairs.drop_last()[j].id != id);
                        }
                    }
                },
            }
        }
    }
}

/// What writing `pairs` one after the other does to the pairs directory.
pub open spec fn pairs_written(root: RootView, pairs: Seq<PairView>, out: RootView) -> bool {
    &&& distinct_names(out.pairs)
    &&& out.pair_groups == root.pair_groups
    &&& out.pairs.len() >= root.pairs.len()
    &&& forall|i: int|
        0 <= i < root.pairs.len() ==> (#[trigger] out.pairs[i]).name == root.pairs[i].name
    &&& forall|id: Seq<char>| #[trigger]
        has_file(out.pairs, id) == (last_written(pairs, id) is Some || has_file(root.pairs, id))
    &&& forall|id: Seq<char>| #[trigger]
        read_file(out.pairs, id) == match last_written(pairs, id) {
            Some(p) => Ok(p),
            None => read_file(root.pairs, id),
        }
    &&& (forall|i: int| 0 <= i < pairs.len() ==> has_file(root.pairs, (#[trigger] pairs[i]).id))
        ==> out.pairs.len() == root.pairs.len()
}

/// After `pairs` were written, each id reads as the last pair written under
/// it, every other file reads as before and keeps its place, and the pair
/// groups are untouched.
pub proof fn lemma_after_write_pairs(root: RootView, pairs: Seq<PairView>)
    requires
        distinct_names(root.pairs),
    ensures
        pairs_written(root, pairs, after_write_pairs(root, pairs)),
    decreases pairs.len(),
{
    let out = after_write_pairs(root, pairs);
    if pairs.len() > 0 {
        let front = pairs.drop_last();
        let last = pairs.last();
        let prev = after_write_pairs(root, front);
        lemma_after_write_pairs(root, front);
        lemma_with_file(prev.pairs, last.id, Ok(last));
        assert(out.pairs == with_file(prev.pairs, last.id, Ok(last)));
        assert forall|id: Seq<char>| #[trigger]
            has_file(out.pairs, id) == (last_written(pairs, id) is Some || has_file(
                root.pairs,
                id,
            )) by {
            if id != last.id {
                assert(has_file(out.pairs, id) == has_file(prev.pairs, id));
            }
        }
        assert forall|id: Seq<char>| #[trigger]
            read_file(out.pairs, id) == match last_written(pairs, id) {
                Some(p) => Ok(p),
                None => read_file(root.pairs, id),
            } by {
            if id != last.id {
                assert(read_file(out.pairs, id) == read_file(prev.pairs, id));
            }
        }
        if forall|i: int| 0 <= i < pairs.len() ==> has_file(root.pairs, (#[trigger] pairs[i]).id) {
            assert forall|i: int| 0 <= i < front.len() implies has_file(
                root.pairs,
                (#[trigger] front[i]).id,
            ) by {
                assert(front[i] == pairs[i]);
            }
            assert(pairs[pairs.len() - 1] == last);
            assert(has_file(root.pairs, last.id));
            assert(has_file(prev.pairs, last.id));
        }
        assert forall|i: int| 0 <= i < root.pairs.len() implies (#[trigger] out.pairs[i]).name
            == root.pairs[i].name by {
            assert(prev.pairs[i].name == root.pairs[i].name);
        }
    }
}

/// Where every id reads as the pair beside it, the list of ids reads as the
/// list of pairs.
pub proof fn lemma_stored_pairs_all(root: RootView, ids: Seq<Seq<char>>, pairs: Seq<PairView>)
    requires
        ids.len() == pairs.len(),
        forall|i: int|
            0 <= i < ids.len() ==> stored_pair(root, #[trigger] ids[i]) == Ok::<
                PairView,
                Seq<char>,
            >(pairs[i]),
    ensures
        stored_pairs(root, ids) == Ok::<Seq<PairView>, Seq<char>>(pairs),
    decreases ids.len(),
{
    if ids.len() > 0 {
        assert forall|i: int| 0 <= i < ids.drop_last().len() implies stored_pair(
            root,
            #[trigger] ids.drop_last()[i],
        ) == Ok::<PairView, Seq<char>>(pairs.drop_last()[i]) by {
            assert(ids.drop_last()[i] == ids[i]);
        }
        lemma_stored_pairs_all(root, ids.drop_last(), pairs.drop_last());
        assert(ids.last() == ids[ids.len() - 1]);
        assert(pairs.drop_last().push(pairs.last()) =~= pairs);
    } else {
        assert(pairs =~= Seq::<PairView>::empty());
    }
}

/// A list of ids reads as a list of pairs only where every id reads as the
/// pair beside it.
pub proof fn lemma_stored_pairs_each(root: RootView, ids: Seq<Seq<char>>)
    requires
        stored_pairs(root, ids) is Ok,
    ensures
        stored_pairs(root, ids)->Ok_0.len() == ids.len(),
        forall|i: int|
            0 <= i < ids.len() ==> stored_pair(root, #[trigger] ids[i]) == Ok::<
                PairView,
                Seq<char>,
            >(stored_pairs(root, ids)->Ok_0[i]),
    decreases ids.len(),
{
    if ids.len() > 0 {
        lemma_stored_pairs_each(root, ids.drop_last());
        assert forall|i: int| 0 <= i < ids.len() implies stored_pair(root, #[trigger] ids[i])
            == Ok::<PairView, Seq<char>>(stored_pairs(root, ids)->Ok_0[i]) by {
            if i < ids.len() - 1 {
                assert(ids.drop_last()[i] == ids[i]);
            }
        }
    }
}

/// A group that was written reads back as the very group, field for field
/// and pair for pair, whatever the store held before; this holds of every
/// group in which no id stands for two different pairs.
pub proof fn lemma_write_then_read(root: RootView, group: PairGroupView)
    requires
        well_formed(root),
        one_pair_per_id(group.pairs),
    ensures
        well_formed(after_write_pair_group(root, group)),
        stored_pair_group(after_write_pair_group(root, group), group.id) == Ok::<
            PairGroupView,
            Seq<char>,
        >(group),
{
    let mid = after_write_pairs(root, group.pairs);
    let out = after_write_pair_group(root, group);
    let record = record_of(group);
    lemma_after_write_pairs(root, group.pairs);
    lemma_with_file(mid.pair_groups, group.id, Ok(record));
    assert forall|i: int| 0 <= i < record.pairs.len() implies stored_pair(
        out,
        #[trigger] record.pairs[i],
    ) == Ok::<PairView, Seq<char>>(group.pairs[i]) by {
        let id = group.pairs[i].id;
        lemma_last_written(group.pairs, id);
        assert(read_file(mid.pairs, id) == match last_written(group.pairs, id) {
            Some(p) => Ok(p),
            None => read_file(root.pairs, id),
        });
    }
    lemma_stored_pairs_all(out, record.pairs, group.pairs);
}

/// A listing that succeeds gives one group for each of the files listed, in
/// their order, each as reading it by its name gives it.
pub proof fn lemma_listed_each(root: RootView, n: nat)
    requires
        n <= root.pair_groups.len(),
        listed_pair_groups(root, n) is Ok,
    ensures
        listed_pair_groups(root, n)->Ok_0.len() == n,
        forall|i: int|
            0 <= i < n ==> stored_pair_group(root, (#[trigger] root.pair_groups[i]).name) == Ok::<
                PairGroupView,
                Seq<char>,
            >(listed_pair_groups(root, n)->Ok_0[i]),
    decreases n,
{
    if n > 0 {
        lemma_listed_each(root, (n - 1) as nat);
    }
}

/// Fetching all groups after one was written gives, where it succeeds, one
/// group for each file of the listing, and at the written group's place the
/// written group itself. It succeeds wherever the root was intact before.
pub proof fn lemma_write_then_fetch(root: RootView, group: PairGroupView)
    requires
        well_formed(root),
        one_pair_per_id(group.pairs),
    ensures
        has_file(after_write_pair_group(root, group).pair_groups, group.id),
        intact(root) ==> all_pair_groups(after_write_pair_group(root, group)) is Ok,
        match all_pair_groups(after_write_pair_group(root, group)) {
            Ok(groups) => groups.len() == after_write_pair_group(root, group).pair_groups.len()
                && groups[position_of(after_write_pair_group(root, group).pair_groups, group.id)]
                == group,
            Err(_) => true,
        },
{
    let out = after_write_pair_group(root, group);
    lemma_write_then_read(root, group);
    lemma_after_write_pairs(root, group.pairs);
    lemma_with_file(root.pair_groups, group.id, Ok(record_of(group)));
    let place = position_of(out.pair_groups, group.id);
    assert(0 <= place < out.pair_groups.len() && out.pair_groups[place].name == group.id);
    if all_pair_groups(out) is Ok {
        lemma_listed_each(out, out.pair_groups.len());
    }
    if intact(root) {
        lemma_write_keeps_intact(root, group);
        lemma_intact_fetches(out, out.pair_groups.len());
    }
}

/// An update of a group that exists replaces it: reading the group then
/// gives the new state exactly, and the listing is as long as before.
pub proof fn lemma_update_replaces(root: RootView, group: PairGroupView)
    requires
        well_formed(root),
        one_pair_per_id(group.pairs),
        has_file(root.pair_groups, group.id),
    ensures
        after_update(root, group).1 == Ok::<(), Seq<char>>(()),
        stored_pair_group(after_update(root, group).0, group.id) == Ok::<
            PairGroupView,
            Seq<char>,
        >(group),
        after_update(root, group).0.pair_groups.len() == root.pair_groups.len(),
{
    lemma_write_then_read(root, group);
    lemma_after_write_pairs(root, group.pairs);
    lemma_with_file(root.pair_groups, group.id, Ok(record_of(group)));
}

/// An update of a group that was never written fails and leaves the root,
/// journal included, as it was.
pub proof fn lemma_update_needs_existing(root: RootView, group: PairGroupView)
    requires
        !has_file(root.pair_groups, group.id),
    ensures
        after_update(root, group).0 == root,
        after_update(root, group).1 == Err::<(), Seq<char>>(missing_group_message()),
{
}

/// A group whose record names a pair id without a pair file cannot be read:
/// the read fails, and so does the fetch of all groups.
pub proof fn lemma_dangling_pair_id(root: RootView, id: Seq<char>, i: int)
    requires
        read_file(root.pair_groups, id) is Ok,
        0 <= i < read_file(root.pair_groups, id)->Ok_0.pairs.len(),
        !has_file(root.pairs, read_file(root.pair_groups, id)->Ok_0.pairs[i]),
    ensures
        stored_pair_group(root, id) is Err,
        has_file(root.pair_groups, id) ==> all_pair_groups(root) is Err,
{
    let record = read_file(root.pair_groups, id)->Ok_0;
    if stored_pairs(root, record.pairs) is Ok {
        lemma_stored_pairs_each(root, record.pairs);
        assert(stored_pair(root, record.pairs[i]) is Ok);
    }
    if has_file(root.pair_groups, id) && all_pair_groups(root) is Ok {
        let place = position_of(root.pair_groups, id);
        lemma_listed_each(root, root.pair_groups.len());
        assert(root.pair_groups[place].name == id);
    }
}

/// Reading depends on the files alone: two roots with the same files give
/// the same pairs for every list of ids.
pub proof fn lemma_same_files_same_pairs(a: RootView, b: RootView, ids: Seq<Seq<char>>)
    requires
        a.pairs == b.pairs,
    ensures
        stored_pairs(a, ids) == stored_pairs(b, ids),
    decreases ids.len(),
{
    if ids.len() > 0 {
        lemma_same_files_same_pairs(a, b, ids.drop_last());
    }
}

/// Reading depends on the files alone: two roots with the same files give
/// the same listing of groups.
pub proof fn lemma_same_files_same_groups(a: RootView, b: RootView, n: nat)
    requires
        a.pairs == b.pairs,
        a.pair_groups == b.pair_groups,
    ensures
        listed_pair_groups(a, n) == listed_pair_groups(b, n),
        forall|id: Seq<char>| #[trigger] stored_pair_group(a, id) == stored_pair_group(b, id),
    decreases n,
{
    assert forall|id: Seq<char>| #[trigger]
        stored_pair_group(a, id) == stored_pair_group(b, id) by {
        if read_file(a.pair_groups, id) is Ok {
            lemma_same_files_same_pairs(a, b, read_file(a.pair_groups, id)->Ok_0.pairs);
        }
    }
    if n > 0 && n <= a.pair_groups.len() {
        lemma_same_files_same_groups(a, b, (n - 1) as nat);
    }
}

/// Writing a group a second time with the same content changes no file:
/// both subdirectories are as after the first write, and so is every read
/// and the fetch of all groups.
pub proof fn lemma_second_write_changes_nothing(root: RootView, group: PairGroupView)
    requires
        well_formed(root),
    ensures
        after_write_pair_group(after_write_pair_group(root, group), group).pairs
            == after_write_pair_group(root, group).pairs,
        after_write_pair_group(after_write_pair_group(root, group), group).pair_groups
            == after_write_pair_group(root, group).pair_groups,
        all_pair_groups(after_write_pair_group(after_write_pair_group(root, group), group))
            == all_pair_groups(after_write_pair_group(root, group)),
        forall|id: Seq<char>| #[trigger]
            stored_pair_group(
                after_write_pair_group(after_write_pair_group(root, group), group),
                id,
            ) == stored_pair_group(after_write_pair_group(root, group), id),
{
    let once = after_write_pair_group(root, group);
    let twice = after_write_pair_group(once, group);
    let record = record_of(group);
    lemma_after_write_pairs(root, group.pairs);
    lemma_with_file(root.pair_groups, group.id, Ok(record));
    lemma_after_write_pairs(once, group.pairs);
    lemma_with_file(once.pair_groups, group.id, Ok(record));
    assert forall|i: int| 0 <= i < group.pairs.len() implies has_file(
        once.pairs,
        (#[trigger] group.pairs[i]).id,
    ) by {
        lemma_last_written(group.pairs, group.pairs[i].id);
    }
    assert(twice.pairs.len() == once.pairs.len());
    assert forall|i: int| 0 <= i < once.pairs.len() implies twice.pairs[i] == once.pairs[i] by {
        let name = once.pairs[i].name;
        assert(twice.pairs[i].name == name);
        lemma_file_at_place(once.pairs, i);
        lemma_file_at_place(twice.pairs, i);
        assert(read_file(twice.pairs, name) == match last_written(group.pairs, name) {
            Some(p) => Ok(p),
            None => read_file(once.pairs, name),
        });
        assert(read_file(once.pairs, name) == match last_written(group.pairs, name) {
            Some(p) => Ok(p),
            None => read_file(root.pairs, name),
        });
    }
    assert(twice.pairs =~= once.pairs);
    let place = position_of(once.pair_groups, group.id);
    assert(0 <= place < once.pair_groups.len() && once.pair_groups[place].name == group.id);
    lemma_file_at_place(once.pair_groups, place);
    assert(twice.pair_groups =~= once.pair_groups);
    lemma_same_files_same_groups(twice, once, once.pair_groups.len());
}

/// A write adds one file to the listing of groups where the group's id is
/// new, and none where a group of that id was there.
pub proof fn lemma_write_grows_listing(root: RootView, group: PairGroupView)
    requires
        well_formed(root),
    ensures
        after_write_pair_group(root, group).pair_groups.len() == root.pair_groups.len()
            + if has_file(root.pair_groups, group.id) {
            0int
        } else {
            1int
        },
{
    lemma_after_write_pairs(root, group.pairs);
    lemma_with_file(root.pair_groups, group.id, Ok(record_of(group)));
}

/// A fetch that succeeds returns exactly as many groups as the listing has
/// files.
pub proof fn lemma_fetch_count(root: RootView)
    requires
        all_pair_groups(root) is Ok,
    ensures
        all_pair_groups(root)->Ok_0.len() == root.pair_groups.len(),
{
    lemma_listed_each(root, root.pair_groups.len());
}

/// Every group file holds a record, and every pair id that a record names
/// has a pair file that holds a record.
pub open spec fn intact(root: RootView) -> bool {
    forall|k: int|
        0 <= k < root.pair_groups.len() ==> {
            &&& (#[trigger] root.pair_groups[k]).content is Ok
            &&& forall|i: int|
                0 <= i < root.pair_groups[k].content->Ok_0.pairs.len() ==> read_file(
                    root.pairs,
                    #[trigger] root.pair_groups[k].content->Ok_0.pairs[i],
                ) is Ok
        }
}

/// The root after each of `groups` was written, first to last.
pub open spec fn after_write_pair_groups(root: RootView, groups: Seq<PairGroupView>) -> RootView
    decreases groups.len(),
{
    if groups.len() == 0 {
        root
    } else {
        after_write_pair_group(after_write_pair_groups(root, groups.drop_last()), groups.last())
    }
}

/// No two of `groups` share an id.
pub open spec fn distinct_ids(groups: Seq<PairGroupView>) -> bool {
    forall|i: int, j: int|
        0 <= i < groups.len() && 0 <= j < groups.len() && (#[trigger] groups[i]).id == (
        #[trigger] groups[j]).id ==> i == j
}

/// In an intact root every group can be read, so the fetch of all groups
/// succeeds.
pub proof fn lemma_intact_fetches(root: RootView, n: nat)
    requires
        intact(root),
        n <= root.pair_groups.len(),
    ensures
        listed_pair_groups(root, n) is Ok,
    decreases n,
{
    if n > 0 {
        lemma_intact_fetches(root, (n - 1) as nat);
        let name = root.pair_groups[n - 1].name;
        assert(has_file(root.pair_groups, name));
        let place = position_of(root.pair_groups, name);
        let record = root.pair_groups[place].content->Ok_0;
        let pairs = Seq::new(record.pairs.len(), |i: int| stored_pair(root, record.pairs[i])->Ok_0);
        assert forall|i: int| 0 <= i < record.pairs.len() implies stored_pair(
            root,
            #[trigger] record.pairs[i],
        ) == Ok::<PairView, Seq<char>>(pairs[i]) by {
            assert(read_file(root.pairs, record.pairs[i]) is Ok);
        }
        lemma_stored_pairs_all(root, record.pairs, pairs);
    }
}

/// Writing pairs keeps an intact root intact. Since a group's pairs are
/// written before its record, a reader that comes between two of the writes
/// finds every pair that any record names.
pub proof fn lemma_pairs_first_keeps_intact(root: RootView, pairs: Seq<PairView>)
    requires
        well_formed(root),
        intact(root),
    ensures
        well_formed(after_write_pairs(root, pairs)),
        intact(after_write_pairs(root, pairs)),
{
    let out = after_write_pairs(root, pairs);
    lemma_after_write_pairs(root, pairs);
    assert forall|k: int| 0 <= k < out.pair_groups.len() implies {
        &&& (#[trigger] out.pair_groups[k]).content is Ok
        &&& forall|i: int|
            0 <= i < out.pair_groups[k].content->Ok_0.pairs.len() ==> read_file(
                out.pairs,
                #[trigger] out.pair_groups[k].content->Ok_0.pairs[i],
            ) is Ok
    } by {
        let record = root.pair_groups[k].content->Ok_0;
        assert forall|i: int| 0 <= i < record.pairs.len() implies read_file(
            out.pairs,
            #[trigger] record.pairs[i],
        ) is Ok by {
            assert(read_file(root.pairs, record.pairs[i]) is Ok);
        }
    }
}

/// A write keeps an intact root intact: the written group names only pairs
/// that were written with it, and no pair file is ever removed.
pub proof fn lemma_write_keeps_intact(root: RootView, group: PairGroupView)
    requires
        well_formed(root),
        intact(root),
    ensures
        well_formed(after_write_pair_group(root, group)),
        intact(after_write_pair_group(root, group)),
{
    let out = after_write_pair_group(root, group);
    let record = record_of(group);
    lemma_after_write_pairs(root, group.pairs);
    lemma_with_file(root.pair_groups, group.id, Ok(record));
    let place = if has_file(root.pair_groups, group.id) {
        position_of(root.pair_groups, group.id)
    } else {
        root.pair_groups.len() as int
    };
    assert forall|k: int| 0 <= k < out.pair_groups.len() implies {
        &&& (#[trigger] out.pair_groups[k]).content is Ok
        &&& forall|i: int|
            0 <= i < out.pair_groups[k].content->Ok_0.pairs.len() ==> read_file(
                out.pairs,
                #[trigger] out.pair_groups[k].content->Ok_0.pairs[i],
            ) is Ok
    } by {
        if k == place {
            assert(out.pair_groups[k].content == Ok::<GroupRecordView, Seq<char>>(record));
            assert forall|i: int| 0 <= i < record.pairs.len() implies read_file(
                out.pairs,
                #[trigger] record.pairs[i],
            ) is Ok by {
                lemma_last_written(group.pairs, group.pairs[i].id);
            }
        } else {
            assert(out.pair_groups[k] == root.pair_groups[k]);
            let old_record = root.pair_groups[k].content->Ok_0;
            assert forall|i: int| 0 <= i < old_record.pairs.len() implies read_file(
                out.pairs,
                #[trigger] old_record.pairs[i],
            ) is Ok by {
                assert(read_file(root.pairs, old_record.pairs[i]) is Ok);
            }
        }
    }
}

/// After groups of pairwise distinct ids, none of them in the root before,
/// were written to an intact root, the root is intact, it holds one more
/// group file for each of them, and a file for an id exactly where the root
/// had one or one of the groups has that id.
pub proof fn lemma_write_many(root: RootView, groups: Seq<PairGroupView>)
    requires
        well_formed(root),
        intact(root),
        distinct_ids(groups),
        forall|i: int|
            0 <= i < groups.len() ==> !has_file(root.pair_groups, (#[trigger] groups[i]).id),
    ensures
        well_formed(after_write_pair_groups(root, groups)),
        intact(after_write_pair_groups(root, groups)),
        after_write_pair_groups(root, groups).pair_groups.len() == root.pair_groups.len()
            + groups.len(),
        forall|id: Seq<char>| #[trigger]
            has_file(after_write_pair_groups(root, groups).pair_groups, id) == (has_file(
                root.pair_groups,
                id,
            ) || exists|j: int| 0 <= j < groups.len() && (#[trigger] groups[j]).id == id),
    decreases groups.len(),
{
    let out = after_write_pair_groups(root, groups);
    if groups.len() > 0 {
        let front = groups.drop_last();
        let last = groups.last();
        let prev = after_write_pair_groups(root, front);
        assert forall|i: int| 0 <= i < front.len() implies !has_file(
            root.pair_groups,
            (#[trigger] front[i]).id,
        ) by {
            assert(front[i] == groups[i]);
        }
        assert(distinct_ids(front)) by {
            assert forall|i: int, j: int|
                0 <= i < front.len() && 0 <= j < front.len() && (#[trigger] front[i]).id == (
                #[trigger] front[j]).id implies i == j by {
                assert(groups[i].id == groups[j].id);
            }
        }
        lemma_write_many(root, front);
        lemma_write_keeps_intact(prev, last);
        lemma_after_write_pairs(prev, last.pairs);
        lemma_with_file(prev.pair_groups, last.id, Ok(record_of(last)));
        assert(groups[groups.len() - 1] == last);
        assert(!has_file(prev.pair_groups, last.id)) by {
            if exists|j: int| 0 <= j < front.len() && (#[trigger] front[j]).id == last.id {
                let j = choose|j: int| 0 <= j < front.len() && (#[trigger] front[j]).id == last.id;
                assert(groups[j].id == groups[groups.len() - 1].id);
            }
        }
        assert forall|id: Seq<char>| #[trigger]
            has_file(out.pair_groups, id) == (has_file(root.pair_groups, id) || exists|j: int|
                0 <= j < groups.len() && (#[trigger] groups[j]).id == id) by {
            if id != last.id {
                assert(has_file(out.pair_groups, id) == has_file(prev.pair_groups, id));
                if exists|j: int| 0 <= j < front.len() && (#[trigger] front[j]).id == id {
                    let j = choose|j: int| 0 <= j < front.len() && (#[trigger] front[j]).id == id;
                    assert(groups[j].id == id);
                }
                if exists|j: int| 0 <= j < groups.len() && (#[trigger] groups[j]).id == id {
                    let j = choose|j: int| 0 <= j < groups.len() && (#[trigger] groups[j]).id == id;
                    assert(front[j].id == id);
                }
            }
        }
    }
}

/// After `groups` of pairwise distinct ids were written to an empty root, the
/// fetch of all groups succeeds and returns exactly as many groups as were
/// written.
pub proof fn lemma_count_after_writes(root: RootView, groups: Seq<PairGroupView>)
    requires
        root.pairs.len() == 0,
        root.pair_groups.len() == 0,
        distinct_ids(groups),
    ensures
        all_pair_groups(after_write_pair_groups(root, groups)) is Ok,
        all_pair_groups(after_write_pair_groups(root, groups))->Ok_0.len() == groups.len(),
{
    let out = after_write_pair_groups(root, groups);
    lemma_write_many(root, groups);
    lemma_intact_fetches(out, out.pair_groups.len());
    lemma_fetch_count(out);
}

} // verus!
