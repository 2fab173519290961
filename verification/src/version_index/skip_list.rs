//! Versions of one record in a concurrent skip list, keyed by insert version.

use vstd::prelude::*;
use crossbeam_skiplist::SkipMap;
use crate::record_model::record_point::RecordPoint;
use crate::record_model::v_record_point::RecordInfo;
use crate::record_model::version_info::DeletedVersionInfo;
use crate::record_model::{Payload, Version};

verus! {

/// `crossbeam_skiplist::SkipMap`, an ordered map.
#[verifier::external_type_specification]
#[verifier::external_body]
#[verifier::reject_recursive_types(K)]
#[verifier::reject_recursive_types(V)]
pub struct ExSkipMap<K, V>(SkipMap<K, V>);

/// The versions of a record by insert version.
pub type SkipListImpl = SkipMap<Version, RecordInfo<Payload>>;

/// A version as scans and searches hand it out.
pub type VersionPoint = RecordPoint<Version, Payload>;

/// What a skip list holds.
pub type VersionMap = Map<u64, RecordInfo<u64>>;

/// The entries of a skip list.
pub uninterp spec fn skip_contents(list: SkipMap<u64, RecordInfo<u64>>) -> Map<u64, RecordInfo<u64>>;

/// `SkipMap::new`: an empty map.
#[verifier::external_body]
fn new_map() -> (list: SkipListImpl)
    ensures
        skip_contents(list) == VersionMap::empty(),
{
    SkipMap::new()
}

/// `SkipMap::from_iter` on one pair: the map holds that pair.
#[verifier::external_body]
fn map_of_one(key: Version, value: RecordInfo<Payload>) -> (list: SkipListImpl)
    ensures
        skip_contents(list) == VersionMap::empty().insert(key, value),
{
    SkipMap::from_iter([(key, value)])
}

/// `SkipMap::insert`: the value is put under the key, and replaces the one that was there.
#[verifier::external_body]
fn put(list: &mut SkipListImpl, key: Version, value: RecordInfo<Payload>)
    ensures
        skip_contents(*final(list)) == skip_contents(*old(list)).insert(key, value),
{
    let _ = list.insert(key, value);
}

/// `SkipMap::back`: the entry with the largest key, if there is any entry.
#[verifier::external_body]
fn back(list: &SkipListImpl) -> (entry: Option<(Version, RecordInfo<Payload>)>)
    ensures
        entry is None ==> skip_contents(*list) == VersionMap::empty(),
        entry matches Some((key, value)) ==> {
            &&& is_last(skip_contents(*list), key)
            &&& skip_contents(*list)[key] == value
        },
{
    list.back().map(|entry| (*entry.key(), *entry.value()))
}

/// `SkipMap::range` from the start up to and including `bound`, from behind: the entry with
/// the largest key that is not above `bound`, if there is any such entry.
#[verifier::external_body]
fn back_of_range(list: &SkipListImpl, bound: Version) -> (entry: Option<
    (Version, RecordInfo<Payload>),
>)
    ensures
        entry is None ==> forall|k: u64| #[trigger]
            skip_contents(*list).contains_key(k) ==> k > bound,
        entry matches Some((key, value)) ==> {
            &&& is_last_at(skip_contents(*list), key, bound)
            &&& skip_contents(*list)[key] == value
        },
{
    list.range(..=bound).next_back().map(|entry| (*entry.key(), *entry.value()))
}

/// `SkipMap::get`: the entry with the given key, if there is one.
#[verifier::external_body]
fn get(list: &SkipListImpl, key: Version) -> (value: Option<RecordInfo<Payload>>)
    ensures
        value == (if skip_contents(*list).contains_key(key) {
            Some(skip_contents(*list)[key])
        } else {
            None
        }),
{
    list.get(&key).map(|entry| *entry.value())
}

/// `SkipMap::len`: the number of entries.
#[verifier::external_body]
fn size(list: &SkipListImpl) -> (n: usize)
    ensures
        n == skip_contents(*list).len(),
{
    list.len()
}

/// `SkipMap::iter`: every entry once, in ascending order of the keys.
#[verifier::external_body]
fn entries(list: &SkipListImpl) -> (items: Vec<(Version, RecordInfo<Payload>)>)
    ensures
        forall|i: int, j: int| 0 <= i < j < items@.len() ==> items@[i].0 < items@[j].0,
        forall|i: int| #![trigger items@[i]]
            0 <= i < items@.len() ==> skip_contents(*list).contains_pair(items@[i].0, items@[i].1),
        forall|k: u64| #[trigger]
            skip_contents(*list).contains_key(k) ==> exists|i: int| #![trigger items@[i]]
                0 <= i < items@.len() && items@[i].0 == k,
{
    list.iter().map(|entry| (*entry.key(), *entry.value())).collect()
}

/// `key` is the largest key.
pub open spec fn is_last(m: VersionMap, key: u64) -> bool {
    &&& m.contains_key(key)
    &&& forall|k: u64| #[trigger] m.contains_key(k) ==> k <= key
}

/// `key` is the largest key that is not above `bound`.
pub open spec fn is_last_at(m: VersionMap, key: u64, bound: u64) -> bool {
    &&& m.contains_key(key)
    &&& key <= bound
    &&& forall|k: u64| #[trigger] m.contains_key(k) && k <= bound ==> k <= key
}

/// There is a largest key.
pub open spec fn has_last(m: VersionMap) -> bool {
    exists|key: u64| is_last(m, key)
}

/// The largest key.
pub open spec fn last_key(m: VersionMap) -> u64 {
    choose|key: u64| is_last(m, key)
}

/// The newest version.
pub open spec fn newest(m: VersionMap) -> RecordInfo<u64> {
    m[last_key(m)]
}

/// What a reader of snapshot `version` sees: the newest version that is not later, unless it
/// was deleted by then.
pub open spec fn skip_lookup(
    m: VersionMap,
    version: Version,
) -> Option<VersionPoint> {
    if exists|key: u64| is_last_at(m, key, version) {
        let key = choose|key: u64| is_last_at(m, key, version);
        match m[key].del_version.version {
            Some(del) if del <= version => None,
            _ => Some(RecordPoint { key, payload: m[key].payload }),
        }
    } else {
        None
    }
}

/// The map with its newest version ended at `version`, if that was live.
pub open spec fn skip_closed(
    m: VersionMap,
    version: Version,
) -> VersionMap {
    if newest(m).live() {
        m.insert(last_key(m), newest(m).ended(version))
    } else {
        m
    }
}

/// The map with a new version that ends the newest one.
pub open spec fn skip_pushed(
    m: VersionMap,
    insert_version: Version,
    payload: Payload,
) -> VersionMap {
    skip_closed(m, insert_version).insert(insert_version, RecordInfo::fresh(payload))
}

/// Whether a deletion at `del_version` takes effect: the newest version must be live and
/// older.
pub open spec fn skip_deletable(m: VersionMap, del_version: Version) -> bool {
    last_key(m) < del_version && newest(m).live()
}

/// The map after a deletion at `del_version`.
pub open spec fn skip_deleted(
    m: VersionMap,
    del_version: Version,
) -> VersionMap {
    if skip_deletable(m, del_version) {
        skip_closed(m, del_version)
    } else {
        m
    }
}

/// A list with one live version.
pub fn skip_new(version: Version, payload: Payload) -> (list: SkipListImpl)
    ensures
        skip_contents(list) == VersionMap::empty().insert(
            version,
            RecordInfo::fresh(payload),
        ),
{
    map_of_one(version, RecordInfo::new(payload))
}

/// There is only one largest key.
pub proof fn lemma_last_key(m: VersionMap, key: u64)
    requires
        is_last(m, key),
    ensures
        last_key(m) == key,
{
    let other = last_key(m);
    assert(is_last(m, other));
}

/// A push leaves a newest version.
pub proof fn lemma_push_keeps_last(m: VersionMap, insert_version: Version, payload: Payload)
    requires
        has_last(m),
    ensures
        m != VersionMap::empty(),
        has_last(skip_pushed(m, insert_version, payload)),
{
    let last = last_key(m);
    assert(is_last(m, last));
    let t = skip_pushed(m, insert_version, payload);
    if last <= insert_version {
        assert(is_last(t, insert_version));
    } else {
        assert(is_last(t, last));
    }
}

/// A deletion leaves a newest version.
pub proof fn lemma_delete_keeps_last(m: VersionMap, del_version: Version)
    requires
        has_last(m),
    ensures
        m != VersionMap::empty(),
        has_last(skip_deleted(m, del_version)),
{
    let last = last_key(m);
    assert(is_last(m, last));
    assert(is_last(skip_deleted(m, del_version), last));
}

/// The number of versions.
pub fn skip_len(list: &SkipListImpl) -> (n: usize)
    ensures
        n == skip_contents(*list).len(),
{
    size(list)
}

/// What a reader of snapshot `version` sees.
pub fn skip_find(list: &SkipListImpl, version: Version) -> (found: Option<VersionPoint>)
    ensures
        found == skip_lookup(skip_contents(*list), version),
{
    match back_of_range(list, version) {
        Some((key, info)) => {
            proof {
                let m = skip_contents(*list);
                let other = choose|k: u64| is_last_at(m, k, version);
                assert(is_last_at(m, key, version));
                assert(other == key);
            }
            let visible = match info.del_version.get() {
                Some(del) => del > version,
                None => true,
            };
            if visible {
                Some(RecordPoint::new(key, info.payload))
            } else {
                None
            }
        },
        None => None,
    }
}

/// The version that was inserted at exactly `version`.
pub fn skip_get(list: &SkipListImpl, version: Version) -> (found: Option<VersionPoint>)
    ensures
        found == (if skip_contents(*list).contains_key(version) {
            Some(RecordPoint { key: version, payload: skip_contents(*list)[version].payload })
        } else {
            None
        }),
{
    match get(list, version) {
        Some(info) => Some(RecordPoint::new(version, info.payload)),
        None => None,
    }
}

/// Ends the newest version if it is live, puts a new one behind it, and hands out the payload
/// that was newest before.
pub fn skip_push(list: &mut SkipListImpl, insert_version: Version, payload: Payload) -> (before:
    Payload)
    requires
        skip_contents(*old(list)) != VersionMap::empty(),
    ensures
        skip_contents(*final(list)) == skip_pushed(
            skip_contents(*old(list)),
            insert_version,
            payload,
        ),
        before == newest(skip_contents(*old(list))).payload,
{
    let (key, mut info) = back(list).unwrap();
    proof {
        lemma_last_key(skip_contents(*list), key);
    }
    let before = info.payload;
    if info.del_version.get().is_none() {
        info.del_version = DeletedVersionInfo::at(insert_version);
        put(list, key, info);
    }
    put(list, insert_version, RecordInfo::new(payload));
    before
}

/// Ends the newest version at `del_version` and hands out its payload, if it is live and was
/// inserted before.
pub fn skip_delete(list: &mut SkipListImpl, del_version: Version) -> (ended: Option<Payload>)
    requires
        skip_contents(*old(list)) != VersionMap::empty(),
    ensures
        skip_contents(*final(list)) == skip_deleted(skip_contents(*old(list)), del_version),
        ended == (if skip_deletable(skip_contents(*old(list)), del_version) {
            Some(newest(skip_contents(*old(list))).payload)
        } else {
            None
        }),
{
    let (key, mut info) = back(list).unwrap();
    proof {
        lemma_last_key(skip_contents(*list), key);
    }
    if key < del_version && info.del_version.get().is_none() {
        info.del_version = DeletedVersionInfo::at(del_version);
        put(list, key, info);
        Some(info.payload)
    } else {
        None
    }
}

/// Whether the newest version is live.
pub fn skip_is_live(list: &SkipListImpl) -> (r: bool)
    requires
        skip_contents(*list) != VersionMap::empty(),
    ensures
        r == newest(skip_contents(*list)).live(),
{
    let (key, info) = back(list).unwrap();
    proof {
        lemma_last_key(skip_contents(*list), key);
    }
    info.del_version.get().is_none()
}

/// The newest payload, live or not.
pub fn skip_newest_payload(list: &SkipListImpl) -> (payload: Payload)
    requires
        skip_contents(*list) != VersionMap::empty(),
    ensures
        payload == newest(skip_contents(*list)).payload,
{
    let (key, info) = back(list).unwrap();
    proof {
        lemma_last_key(skip_contents(*list), key);
    }
    info.payload
}

/// A list of its own with the same versions.
pub fn skip_clone(list: &SkipListImpl) -> (copy: SkipListImpl)
    ensures
        skip_contents(copy) == skip_contents(*list),
{
    let items = entries(list);
    let mut copy = new_map();
    let ghost m = skip_contents(*list);
    let mut i: usize = 0;
    while i < items.len()
        invariant
            i <= items@.len(),
            m == skip_contents(*list),
            forall|a: int| #![trigger items@[a]]
                0 <= a < items@.len() ==> m.contains_pair(items@[a].0, items@[a].1),
            forall|a: int, b: int| 0 <= a < b < items@.len() ==> items@[a].0 < items@[b].0,
            forall|k: u64| #[trigger]
                skip_contents(copy).contains_key(k) ==> m.contains_pair(k, skip_contents(copy)[k]),
            forall|a: int| #![trigger items@[a]]
                0 <= a < i ==> skip_contents(copy).contains_key(items@[a].0),
        decreases items@.len() - i,
    {
        put(&mut copy, items[i].0, items[i].1);
        i += 1;
    }
    assert(skip_contents(copy) =~= m);
    copy
}

/// A reader of the new version or a later one sees what was pushed, if no version is later.
pub proof fn law_read_after_push(
    m: VersionMap,
    insert_version: Version,
    payload: Payload,
    version: Version,
)
    requires
        has_last(m),
        last_key(m) <= insert_version <= version,
    ensures
        skip_lookup(skip_pushed(m, insert_version, payload), version) == Some(
            RecordPoint { key: insert_version, payload },
        ),
{
    let t = skip_pushed(m, insert_version, payload);
    assert(is_last_at(t, insert_version, version));
    let key = choose|key: u64| is_last_at(t, key, version);
    assert(is_last_at(t, key, version));
    assert(key == insert_version);
}

/// A reader of an older snapshot sees after a push what it saw before.
pub proof fn law_snapshot_survives_push(
    m: VersionMap,
    insert_version: Version,
    payload: Payload,
    version: Version,
)
    requires
        has_last(m),
        version < insert_version,
    ensures
        skip_lookup(skip_pushed(m, insert_version, payload), version) == skip_lookup(m, version),
{
    law_snapshot_survives_close(m, insert_version, version);
    let c = skip_closed(m, insert_version);
    let t = skip_pushed(m, insert_version, payload);
    assert forall|key: u64| is_last_at(t, key, version) <==> is_last_at(c, key, version) by {
        if is_last_at(t, key, version) {
            assert forall|k: u64| #[trigger] c.contains_key(k) && k <= version implies k <= key by {
                assert(t.contains_key(k));
            }
        }
        if is_last_at(c, key, version) {
            assert forall|k: u64| #[trigger] t.contains_key(k) && k <= version implies k <= key by {
                assert(c.contains_key(k));
            }
        }
    }
    lemma_lookup_agrees(c, t, version);
}

/// A reader of an older snapshot sees after the newest version ended what it saw before.
pub proof fn law_snapshot_survives_close(
    m: VersionMap,
    end: Version,
    version: Version,
)
    requires
        has_last(m),
        version < end,
    ensures
        skip_lookup(skip_closed(m, end), version) == skip_lookup(m, version),
{
    let c = skip_closed(m, end);
    let last = last_key(m);
    assert(is_last(m, last));
    assert forall|key: u64| is_last_at(m, key, version) <==> is_last_at(c, key, version) by {
        if is_last_at(m, key, version) {
            assert forall|k: u64| #[trigger] c.contains_key(k) && k <= version implies k <= key by {
                assert(m.contains_key(k));
            }
        }
        if is_last_at(c, key, version) {
            assert forall|k: u64| #[trigger] m.contains_key(k) && k <= version implies k <= key by {
                assert(c.contains_key(k));
            }
        }
    }
    lemma_lookup_agrees(m, c, version);
}

/// After a deletion that took effect, no snapshot from its version on sees the record.
pub proof fn law_read_after_delete(
    m: VersionMap,
    del_version: Version,
    version: Version,
)
    requires
        has_last(m),
        skip_deletable(m, del_version),
        del_version <= version,
    ensures
        skip_lookup(skip_deleted(m, del_version), version) is None,
{
    let d = skip_deleted(m, del_version);
    let last = last_key(m);
    assert(is_last(m, last));
    assert(is_last_at(d, last, version));
    let key = choose|key: u64| is_last_at(d, key, version);
    assert(is_last_at(d, key, version));
    assert(key == last);
}

/// Maps with the same newest version up to `version`, of which a reader of that snapshot
/// cannot tell the ends apart, look the same to it.
proof fn lemma_lookup_agrees(
    a: VersionMap,
    b: VersionMap,
    version: Version,
)
    requires
        forall|key: u64| is_last_at(a, key, version) <==> is_last_at(b, key, version),
        forall|key: u64| #[trigger]
            is_last_at(a, key, version) ==> {
                &&& a[key].payload == b[key].payload
                &&& (a[key].del_version.version matches Some(d) && d <= version) <==> (
                b[key].del_version.version matches Some(d) && d <= version)
            },
    ensures
        skip_lookup(a, version) == skip_lookup(b, version),
{
    if exists|key: u64| is_last_at(a, key, version) {
        let ka = choose|key: u64| is_last_at(a, key, version);
        assert(is_last_at(b, ka, version));
        let kb = choose|key: u64| is_last_at(b, key, version);
        assert(is_last_at(a, kb, version));
        assert(ka == kb);
    } else {
        assert(forall|key: u64| !is_last_at(b, key, version));
    }
}

} // verus!
