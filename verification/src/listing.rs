//! Records listed in the order in which their ids were issued, and the two
//! maps that such a list stands for.

use vstd::prelude::*;
use crate::account::AccountId;
use crate::model::{ContentView, RegistryView};

verus! {

/// Some record of the list carries `id`.
pub open spec fn lists_id(records: Seq<(u64, ContentView)>, id: u64) -> bool {
    exists|i: int| 0 <= i < records.len() && (#[trigger] records[i]).0 == id
}

/// A place at which the list carries `id`, if it does.
pub open spec fn place_of_id(records: Seq<(u64, ContentView)>, id: u64) -> int {
    choose|i: int| 0 <= i < records.len() && (#[trigger] records[i]).0 == id
}

/// Some record of the list has the fingerprint `content_hash`.
pub open spec fn lists_hash(records: Seq<(u64, ContentView)>, content_hash: Seq<char>) -> bool {
    exists|i: int| 0 <= i < records.len() && (#[trigger] records[i]).1.content_hash == content_hash
}

/// A place at which the list has the fingerprint `content_hash`, if it does.
pub open spec fn place_of_hash(records: Seq<(u64, ContentView)>, content_hash: Seq<char>) -> int {
    choose|i: int| 0 <= i < records.len() && (#[trigger] records[i]).1.content_hash == content_hash
}

/// The records of the list, by id.
pub open spec fn contents_of(records: Seq<(u64, ContentView)>) -> Map<u64, ContentView> {
    Map::new(|id: u64| lists_id(records, id), |id: u64| records[place_of_id(records, id)].1)
}

/// The ids of the list, by fingerprint.
pub open spec fn index_of(records: Seq<(u64, ContentView)>) -> Map<Seq<char>, u64> {
    Map::new(
        |content_hash: Seq<char>| lists_hash(records, content_hash),
        |content_hash: Seq<char>| records[place_of_hash(records, content_hash)].0,
    )
}

/// The list could have been written by a registry whose counter stands at
/// `next_content_id`: the ids ascend, lie between 1 and the counter, and no
/// fingerprint occurs twice.
pub open spec fn in_issue_order(records: Seq<(u64, ContentView)>, next_content_id: u64) -> bool {
    &&& next_content_id >= 1
    &&& forall|i: int|
        0 <= i < records.len() ==> 1 <= (#[trigger] records[i]).0 < next_content_id
    &&& forall|i: int, j: int|
        0 <= i < j < records.len() ==> (#[trigger] records[i]).0 < (#[trigger] records[j]).0
    &&& forall|i: int, j: int|
        0 <= i < j < records.len() ==> (#[trigger] records[i]).1.content_hash != (
        #[trigger] records[j]).1.content_hash
}

/// In a list in issue order an id stands at one place only.
pub proof fn lemma_place_of_id(records: Seq<(u64, ContentView)>, next_content_id: u64, i: int)
    requires
        in_issue_order(records, next_content_id),
        0 <= i < records.len(),
    ensures
        lists_id(records, records[i].0),
        place_of_id(records, records[i].0) == i,
        contents_of(records).contains_key(records[i].0),
        contents_of(records)[records[i].0] == records[i].1,
{
    let j = place_of_id(records, records[i].0);
    assert(records[j].0 == records[i].0);
    if j < i {
        assert(records[j].0 < records[i].0);
    } else if i < j {
        assert(records[i].0 < records[j].0);
    }
}

/// In a list in issue order a fingerprint stands at one place only.
pub proof fn lemma_place_of_hash(records: Seq<(u64, ContentView)>, next_content_id: u64, i: int)
    requires
        in_issue_order(records, next_content_id),
        0 <= i < records.len(),
    ensures
        lists_hash(records, records[i].1.content_hash),
        place_of_hash(records, records[i].1.content_hash) == i,
        index_of(records).contains_key(records[i].1.content_hash),
        index_of(records)[records[i].1.content_hash] == records[i].0,
{
    let j = place_of_hash(records, records[i].1.content_hash);
    assert(records[j].1.content_hash == records[i].1.content_hash);
    if j < i {
        assert(records[j].1.content_hash != records[i].1.content_hash);
    } else if i < j {
        assert(records[i].1.content_hash != records[j].1.content_hash);
    }
}

/// A registry whose two maps are those of a list in issue order under its
/// counter is well formed.
pub proof fn lemma_listed_is_well_formed(registry: RegistryView, records: Seq<(u64, ContentView)>)
    requires
        in_issue_order(records, registry.next_content_id),
        registry.contents == contents_of(records),
        registry.content_hash_to_id == index_of(records),
    ensures
        registry.well_formed(),
{
    let next_content_id = registry.next_content_id;
    assert forall|id: u64| #[trigger] registry.contents.contains_key(id) implies {
        &&& registry.content_hash_to_id.contains_key(registry.contents[id].content_hash)
        &&& registry.content_hash_to_id[registry.contents[id].content_hash] == id
        &&& 1 <= id < next_content_id
    } by {
        let i = place_of_id(records, id);
        lemma_place_of_id(records, next_content_id, i);
        lemma_place_of_hash(records, next_content_id, i);
    }
    assert forall|content_hash: Seq<char>| #[trigger]
        registry.content_hash_to_id.contains_key(content_hash) implies {
        &&& registry.contents.contains_key(registry.content_hash_to_id[content_hash])
        &&& registry.contents[registry.content_hash_to_id[content_hash]].content_hash
            == content_hash
    } by {
        let i = place_of_hash(records, content_hash);
        lemma_place_of_id(records, next_content_id, i);
        lemma_place_of_hash(records, next_content_id, i);
    }
}

/// Appending a record with the counter's id and a fingerprint not yet listed
/// enters it into both maps and leaves the list in issue order under the
/// next counter.
pub proof fn lemma_append(
    next_content_id: u64,
    records: Seq<(u64, ContentView)>,
    record: ContentView,
)
    requires
        in_issue_order(records, next_content_id),
        next_content_id < u64::MAX,
        !lists_hash(records, record.content_hash),
    ensures
        in_issue_order(records.push((next_content_id, record)), (next_content_id + 1) as u64),
        contents_of(records.push((next_content_id, record))) == contents_of(records).insert(
            next_content_id,
            record,
        ),
        index_of(records.push((next_content_id, record))) == index_of(records).insert(
            record.content_hash,
            next_content_id,
        ),
{
    let longer = records.push((next_content_id, record));
    let last = records.len() as int;
    assert forall|i: int, j: int| 0 <= i < j < longer.len() implies (#[trigger] longer[i]).1.content_hash
        != (#[trigger] longer[j]).1.content_hash by {
        if j == last {
            assert(longer[i] == records[i]);
        } else {
            assert(longer[i] == records[i]);
            assert(longer[j] == records[j]);
        }
    }
    assert forall|i: int, j: int| 0 <= i < j < longer.len() implies (#[trigger] longer[i]).0 < (
    #[trigger] longer[j]).0 by {
        assert(longer[i] == records[i]);
        if j != last {
            assert(longer[j] == records[j]);
        }
    }
    assert forall|i: int| 0 <= i < longer.len() implies 1 <= (#[trigger] longer[i]).0
        < next_content_id + 1 by {
        if i != last {
            assert(longer[i] == records[i]);
        }
    }
    assert(in_issue_order(longer, (next_content_id + 1) as u64));
    assert forall|id: u64| lists_id(longer, id) <==> (id == next_content_id || lists_id(
        records,
        id,
    )) by {
        if lists_id(longer, id) {
            let i = place_of_id(longer, id);
            if i != last {
                assert(records[i].0 == id);
            }
        }
        if lists_id(records, id) {
            let i = place_of_id(records, id);
            assert(longer[i].0 == id);
        }
        assert(longer[last].0 == next_content_id);
    }
    assert forall|h: Seq<char>| lists_hash(longer, h) <==> (h == record.content_hash || lists_hash(
        records,
        h,
    )) by {
        if lists_hash(longer, h) {
            let i = place_of_hash(longer, h);
            if i != last {
                assert(records[i].1.content_hash == h);
            }
        }
        if lists_hash(records, h) {
            let i = place_of_hash(records, h);
            assert(longer[i].1.content_hash == h);
        }
        assert(longer[last].1.content_hash == record.content_hash);
    }
    assert forall|id: u64| lists_id(longer, id) implies contents_of(longer)[id] == contents_of(
        records,
    ).insert(next_content_id, record)[id] by {
        let i = place_of_id(longer, id);
        lemma_place_of_id(longer, (next_content_id + 1) as u64, i);
        if i != last {
            assert(longer[i] == records[i]);
            lemma_place_of_id(records, next_content_id, i);
        }
    }
    assert forall|h: Seq<char>| lists_hash(longer, h) implies index_of(longer)[h] == index_of(
        records,
    ).insert(record.content_hash, next_content_id)[h] by {
        let i = place_of_hash(longer, h);
        lemma_place_of_hash(longer, (next_content_id + 1) as u64, i);
        if i != last {
            assert(longer[i] == records[i]);
            lemma_place_of_hash(records, next_content_id, i);
        }
    }
    assert(contents_of(longer) =~= contents_of(records).insert(next_content_id, record));
    assert(index_of(longer) =~= index_of(records).insert(record.content_hash, next_content_id));
}

/// Replacing the owner of the record at one place replaces that record in
/// the map by id and leaves the index and the order as they were.
pub proof fn lemma_replace_owner(
    next_content_id: u64,
    records: Seq<(u64, ContentView)>,
    i: int,
    new_owner: AccountId,
)
    requires
        in_issue_order(records, next_content_id),
        0 <= i < records.len(),
    ensures
        in_issue_order(
            records.update(i, (records[i].0, ContentView { owner: new_owner, ..records[i].1 })),
            next_content_id,
        ),
        contents_of(
            records.update(i, (records[i].0, ContentView { owner: new_owner, ..records[i].1 })),
        ) == contents_of(records).insert(
            records[i].0,
            ContentView { owner: new_owner, ..records[i].1 },
        ),
        index_of(
            records.update(i, (records[i].0, ContentView { owner: new_owner, ..records[i].1 })),
        ) == index_of(records),
{
    let changed = records.update(
        i,
        (records[i].0, ContentView { owner: new_owner, ..records[i].1 }),
    );
    assert forall|k: int| 0 <= k < records.len() implies (#[trigger] changed[k]).0 == records[k].0
        && changed[k].1.content_hash == records[k].1.content_hash by {}
    assert(in_issue_order(changed, next_content_id)) by {
        assert forall|a: int, b: int| 0 <= a < b < changed.len() implies (#[trigger] changed[a]).0
            < (#[trigger] changed[b]).0 by {
            assert(records[a].0 < records[b].0);
        }
        assert forall|a: int, b: int| 0 <= a < b < changed.len() implies (
        #[trigger] changed[a]).1.content_hash != (#[trigger] changed[b]).1.content_hash by {
            assert(records[a].1.content_hash != records[b].1.content_hash);
        }
        assert forall|a: int| 0 <= a < changed.len() implies 1 <= (#[trigger] changed[a]).0
            < next_content_id by {
            assert(1 <= records[a].0 < next_content_id);
        }
    }
    assert forall|id: u64| lists_id(changed, id) <==> lists_id(records, id) by {
        if lists_id(changed, id) {
            let k = place_of_id(changed, id);
            assert(records[k].0 == id);
        }
        if lists_id(records, id) {
            let k = place_of_id(records, id);
            assert(changed[k].0 == id);
        }
    }
    assert forall|h: Seq<char>| lists_hash(changed, h) <==> lists_hash(records, h) by {
        if lists_hash(changed, h) {
            let k = place_of_hash(changed, h);
            assert(records[k].1.content_hash == h);
        }
        if lists_hash(records, h) {
            let k = place_of_hash(records, h);
            assert(changed[k].1.content_hash == h);
        }
    }
    lemma_place_of_id(records, next_content_id, i);
    assert forall|id: u64| lists_id(changed, id) implies contents_of(changed)[id] == contents_of(
        records,
    ).insert(records[i].0, ContentView { owner: new_owner, ..records[i].1 })[id] by {
        let k = place_of_id(changed, id);
        lemma_place_of_id(changed, next_content_id, k);
        lemma_place_of_id(records, next_content_id, k);
    }
    assert forall|h: Seq<char>| lists_hash(changed, h) implies index_of(changed)[h] == index_of(
        records,
    )[h] by {
        let k = place_of_hash(changed, h);
        lemma_place_of_hash(changed, next_content_id, k);
        lemma_place_of_hash(records, next_content_id, k);
    }
    assert(contents_of(changed) =~= contents_of(records).insert(
        records[i].0,
        ContentView { owner: new_owner, ..records[i].1 },
    ));
    assert(index_of(changed) =~= index_of(records));
}

} // verus!
