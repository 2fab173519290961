//! Leaf pages.

use vstd::prelude::*;
use crate::record_model::Key;
use crate::utils::shadow_vec::ShadowVec;

verus! {

/// Something that is stored under a key.
pub trait Keyed {
    /// The key.
    spec fn key_of(&self) -> Key;

    /// The key.
    fn record_key(&self) -> (key: Key)
        ensures
            key == self.key_of(),
    ;
}

/// The keys ascend strictly.
pub open spec fn sorted<Record: Keyed>(s: Seq<Record>) -> bool {
    forall|i: int, j: int| 0 <= i < j < s.len() ==> s[i].key_of() < s[j].key_of()
}

/// All keys lie above `lo` and not above `hi`.
pub open spec fn within<Record: Keyed>(s: Seq<Record>, lo: int, hi: int) -> bool {
    forall|i: int| 0 <= i < s.len() ==> lo < (#[trigger] s[i]).key_of() <= hi
}

/// How many records lie below `key`.
pub open spec fn rank<Record: Keyed>(s: Seq<Record>, key: Key) -> int
    decreases s.len(),
{
    if s.len() == 0 {
        0
    } else if s.last().key_of() < key {
        s.len() as int
    } else {
        rank(s.drop_last(), key)
    }
}

/// In ascending order, the records below `key` are those before its rank.
pub proof fn lemma_rank<Record: Keyed>(s: Seq<Record>, key: Key)
    requires
        sorted(s),
    ensures
        0 <= rank(s, key) <= s.len(),
        forall|i: int| 0 <= i < rank(s, key) ==> (#[trigger] s[i]).key_of() < key,
        forall|i: int| rank(s, key) <= i < s.len() ==> (#[trigger] s[i]).key_of() >= key,
    decreases s.len(),
{
    if s.len() > 0 && s.last().key_of() >= key {
        lemma_rank(s.drop_last(), key);
        assert forall|i: int| rank(s, key) <= i < s.len() implies (#[trigger] s[i]).key_of()
            >= key by {
            if i < s.len() - 1 {
                assert(s.drop_last()[i] == s[i]);
            }
        }
        assert forall|i: int| 0 <= i < rank(s, key) implies (#[trigger] s[i]).key_of() < key by {
            assert(s.drop_last()[i] == s[i]);
        }
    }
}

/// Only the rank separates the records below `key` from the others.
pub proof fn lemma_rank_is<Record: Keyed>(s: Seq<Record>, key: Key, at: int)
    requires
        sorted(s),
        0 <= at <= s.len(),
        forall|i: int| 0 <= i < at ==> (#[trigger] s[i]).key_of() < key,
        forall|i: int| at <= i < s.len() ==> (#[trigger] s[i]).key_of() >= key,
    ensures
        rank(s, key) == at,
{
    lemma_rank(s, key);
    if rank(s, key) < at {
        assert(s[rank(s, key)].key_of() < key);
    } else if at < rank(s, key) {
        assert(s[at].key_of() >= key);
    }
}

/// A page of at most `NUM_RECORDS` records.
pub struct LeafPage<const NUM_RECORDS: usize, Record> {
    pub record_data: ShadowVec<Record>,
}

impl<const NUM_RECORDS: usize, Record> LeafPage<NUM_RECORDS, Record> {
    /// The records.
    pub open spec fn view(&self) -> Seq<Record> {
        self.record_data@
    }

    /// The records fit into the page.
    pub open spec fn wf(&self) -> bool {
        &&& self.record_data.wf()
        &&& self.record_data.capacity() == NUM_RECORDS
    }

    /// An empty page.
    pub fn new() -> (page: Self)
        ensures
            page.wf(),
            page@ == Seq::<Record>::empty(),
    {
        LeafPage { record_data: ShadowVec::with_room_for(NUM_RECORDS) }
    }

    /// An empty page.
    pub fn default() -> (page: Self)
        ensures
            page.wf(),
            page@ == Seq::<Record>::empty(),
    {
        LeafPage::new()
    }

    /// All records of the page.
    pub fn as_records(&self) -> (records: &[Record])
        ensures
            records@ == self@,
    {
        self.record_data.as_slice()
    }

    /// The number of records.
    pub fn len(&self) -> (n: usize)
        ensures
            n == self@.len(),
    {
        self.record_data.len()
    }

    /// Shortens the page to its first `len` records.
    pub fn set_len(&mut self, len: usize)
        requires
            old(self).wf(),
            len <= old(self)@.len(),
        ensures
            final(self).wf(),
            final(self)@ == old(self)@.take(len as int),
    {
        self.record_data.truncate(len);
    }

    /// Whether the page holds no record.
    pub fn is_empty(&self) -> (r: bool)
        ensures
            r == (self@.len() == 0),
    {
        self.len() == 0
    }

    /// Whether there is no room left.
    pub fn is_full(&self) -> (r: bool)
        ensures
            r == (self@.len() == NUM_RECORDS),
    {
        self.len() == NUM_RECORDS
    }

    /// The records, to be changed in place.
    pub fn as_records_mut(&mut self) -> (records: &mut ShadowVec<Record>)
        ensures
            *records == old(self).record_data,
            final(self).record_data == *final(records),
    {
        &mut self.record_data
    }
}

impl<const NUM_RECORDS: usize, Record: Keyed> LeafPage<NUM_RECORDS, Record> {
    /// The position of `key`, or else the position at which it would have to be inserted.
    pub fn search(&self, key: Key) -> (at: Result<usize, usize>)
        requires
            sorted(self@),
        ensures
            at matches Ok(p) ==> {
                &&& p < self@.len()
                &&& self@[p as int].key_of() == key
                &&& p == rank(self@, key)
            },
            at matches Err(p) ==> {
                &&& p == rank(self@, key)
                &&& p <= self@.len()
                &&& forall|i: int| 0 <= i < self@.len() ==> (#[trigger] self@[i]).key_of() != key
            },
    {
        let mut low: usize = 0;
        let mut high: usize = self.record_data.len();
        while low < high
            invariant
                sorted(self@),
                low <= high <= self@.len(),
                forall|i: int| 0 <= i < low ==> (#[trigger] self@[i]).key_of() < key,
                forall|i: int| high <= i < self@.len() ==> (#[trigger] self@[i]).key_of() >= key,
            decreases high - low,
        {
            let mid: usize = low + (high - low) / 2;
            if self.record_data.get_unchecked(mid).record_key() < key {
                low = mid + 1;
            } else {
                high = mid;
            }
        }
        proof {
            lemma_rank_is(self@, key, low as int);
        }
        if low < self.record_data.len() && self.record_data.get_unchecked(low).record_key()
            == key {
            Ok(low)
        } else {
            Err(low)
        }
    }
}

} // verus!
