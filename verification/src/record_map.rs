//! The mapping from record id to record, owned by the deck thread and
//! copied wholesale into the published snapshot.
//!
//! Keys are unique; insertion order carries no meaning. The mathematical
//! value of a map is a `Map<int, RecordV>` from id to record value.

use vstd::prelude::*;

use crate::record::{Record, RecordV};
use crate::track::spec_add;
use crate::RECORD_CAP;

verus! {

/// Whether some record in `s` carries the id `k`.
pub open spec fn spec_has_id(s: Seq<Record>, k: int) -> bool {
    exists|i: int| 0 <= i < s.len() && s[i].id == k
}

/// The index of the record carrying id `k` (meaningful only when unique ids
/// hold and `spec_has_id(s, k)` is true).
pub open spec fn spec_idx_of(s: Seq<Record>, k: int) -> int {
    choose|i: int| 0 <= i < s.len() && s[i].id == k
}

/// The map from id to record value that `s` denotes.
pub open spec fn spec_map_of(s: Seq<Record>) -> Map<int, RecordV> {
    Map::new(|k: int| spec_has_id(s, k), |k: int| s[spec_idx_of(s, k)]@)
}

/// A collection of records addressed by their unique ids.
pub struct RecordMap {
    recs: Vec<Record>,
}

impl View for RecordMap {
    type V = Map<int, RecordV>;

    closed spec fn view(&self) -> Map<int, RecordV> {
        spec_map_of(self.recs@)
    }
}

impl RecordMap {
    /// Ids are pairwise distinct.
    pub closed spec fn wf(&self) -> bool {
        forall|i: int, j: int|
            0 <= i < j < self.recs@.len() ==> self.recs@[i].id != self.recs@[j].id
    }

    /// How many records the map holds (in spec form).
    pub closed spec fn spec_len(&self) -> nat {
        self.recs@.len()
    }

    /// The ids of the records, in the map's internal order: position `i` of
    /// this sequence is the id of the record [`RecordMap::at`] returns for
    /// `i`.
    pub closed spec fn spec_ids(&self) -> Seq<int> {
        self.recs@.map_values(|r: Record| r.id as int)
    }

    /// An empty map.
    pub fn new() -> (r: RecordMap)
        ensures
            r.wf(),
            r@ == Map::<int, RecordV>::empty(),
            r.spec_len() == 0,
    {
        let r = RecordMap { recs: Vec::new() };
        proof {
            assert(r@ =~= Map::<int, RecordV>::empty());
        }
        r
    }

    /// How many records the map holds.
    pub fn len(&self) -> (r: usize)
        ensures
            r == self.spec_len(),
    {
        self.recs.len()
    }

    /// The position of the record carrying `id`, if any.
    fn find(&self, id: i32) -> (r: Option<usize>)
        requires
            self.wf(),
        ensures
            match r {
                Some(i) => i < self.recs@.len() && self.recs@[i as int].id == id,
                None => !spec_has_id(self.recs@, id as int),
            },
    {
        let n = self.recs.len();
        let mut i: usize = 0;
        while i < n
            invariant
                i <= n,
                n == self.recs@.len(),
                forall|j: int| 0 <= j < i ==> self.recs@[j].id != id,
            decreases n - i,
        {
            if self.recs[i].id == id {
                return Some(i);
            }
            i = i + 1;
        }
        None
    }

    /// With unique ids, position `i` is the position `spec_idx_of` picks for
    /// that record's id, and the map holds that record's value there.
    proof fn lemma_at(&self, i: int)
        requires
            self.wf(),
            0 <= i < self.recs@.len(),
        ensures
            spec_has_id(self.recs@, self.recs@[i].id as int),
            spec_idx_of(self.recs@, self.recs@[i].id as int) == i,
            self@.contains_key(self.recs@[i].id as int),
            self@[self.recs@[i].id as int] == self.recs@[i]@,
    {
        let k = self.recs@[i].id as int;
        assert(spec_has_id(self.recs@, k));
        let w = spec_idx_of(self.recs@, k);
        assert(0 <= w < self.recs@.len() && self.recs@[w].id == k);
    }

    /// A borrowed record by id.
    pub fn get(&self, id: i32) -> (r: Option<&Record>)
        requires
            self.wf(),
        ensures
            match r {
                Some(rec) => self@.contains_key(id as int) && rec@ == self@[id as int]
                    && rec.id == id,
                None => !self@.contains_key(id as int),
            },
    {
        match self.find(id) {
            Some(i) => {
                proof {
                    self.lemma_at(i as int);
                }
                Some(&self.recs[i])
            },
            None => None,
        }
    }

    /// Insert a record under its id, which must be fresh.
    pub fn insert(&mut self, rec: Record)
        requires
            old(self).wf(),
            !old(self)@.contains_key(rec.id as int),
        ensures
            final(self).wf(),
            final(self)@ == old(self)@.insert(rec.id as int, rec@),
            final(self).spec_len() == old(self).spec_len() + 1,
    {
        let ghost k = rec.id as int;
        let ghost s0 = self.recs@;
        proof {
            assert(!spec_has_id(s0, k));
        }
        self.recs.push(rec);
        proof {
            let s1 = self.recs@;
            assert forall|i: int, j: int|
                0 <= i < j < s1.len() implies s1[i].id != s1[j].id by {
                if j < s1.len() - 1 {
                } else {
                    assert(s1[j].id == k);
                    if s1[i].id == k {
                        assert(spec_has_id(s0, k));
                    }
                }
            }
            assert forall|k2: int|
                #[trigger] self@.contains_key(k2) == old(self)@.insert(k, rec@).contains_key(
                    k2,
                ) by {
                if k2 == k {
                    assert(s1[s1.len() - 1].id == k);
                    assert(spec_has_id(s1, k));
                } else {
                    if spec_has_id(s0, k2) {
                        let w = choose|i: int| 0 <= i < s0.len() && s0[i].id == k2;
                        assert(s1[w].id == k2);
                        assert(spec_has_id(s1, k2));
                    }
                    if spec_has_id(s1, k2) {
                        let w = choose|i: int| 0 <= i < s1.len() && s1[i].id == k2;
                        assert(w < s0.len());
                        assert(s0[w].id == k2);
                        assert(spec_has_id(s0, k2));
                    }
                }
            }
            assert forall|k2: int| #[trigger] self@.contains_key(k2) implies self@[k2]
                == old(self)@.insert(k, rec@)[k2] by {
                let w = spec_idx_of(s1, k2);
                assert(0 <= w < s1.len() && s1[w].id == k2);
                if k2 == k {
                    self.lemma_at(s1.len() - 1);
                } else {
                    assert(w < s0.len());
                    let w0 = spec_idx_of(s0, k2);
                    assert(0 <= w0 < s0.len() && s0[w0].id == k2);
                    if w != w0 {
                        assert(s1[w0].id == k2);
                    }
                    assert(w == w0);
                }
            }
            assert(self@ =~= old(self)@.insert(k, rec@));
        }
    }

    /// Remove the record under `id`, reporting whether one was there.
    pub fn remove(&mut self, id: i32) -> (r: bool)
        requires
            old(self).wf(),
        ensures
            final(self).wf(),
            final(self)@ == old(self)@.remove(id as int),
            r == old(self)@.contains_key(id as int),
            r ==> final(self).spec_len() == old(self).spec_len() - 1,
            !r ==> final(self).spec_len() == old(self).spec_len(),
    {
        let ghost k = id as int;
        let ghost s0 = self.recs@;
        match self.find(id) {
            Some(i) => {
                proof {
                    self.lemma_at(i as int);
                }
                self.recs.remove(i);
                proof {
                    let s1 = self.recs@;
                    s0.remove_ensures(i as int);
                    assert forall|a: int, b: int|
                        0 <= a < b < s1.len() implies s1[a].id != s1[b].id by {
                        let a0 = if a < i { a } else { a + 1 };
                        let b0 = if b < i { b } else { b + 1 };
                        assert(s1[a] == s0[a0] && s1[b] == s0[b0]);
                    }
                    assert forall|k2: int|
                        #[trigger] self@.contains_key(k2) == old(self)@.remove(k).contains_key(
                            k2,
                        ) by {
                        if spec_has_id(s1, k2) {
                            let w = choose|j: int| 0 <= j < s1.len() && s1[j].id == k2;
                            let w0 = if w < i { w } else { w + 1 };
                            assert(s0[w0].id == k2);
                            assert(spec_has_id(s0, k2));
                            if k2 == k {
                                assert(s0[w0].id == s0[i as int].id);
                            }
                        }
                        if k2 != k && spec_has_id(s0, k2) {
                            let w = choose|j: int| 0 <= j < s0.len() && s0[j].id == k2;
                            assert(w != i);
                            if w < i {
                                assert(s1[w].id == k2);
                            } else {
                                assert(s1[w - 1].id == k2);
                            }
                            assert(spec_has_id(s1, k2));
                        }
                    }
                    assert forall|k2: int| #[trigger] self@.contains_key(k2) implies self@[k2]
                        == old(self)@.remove(k)[k2] by {
                        let w = spec_idx_of(s1, k2);
                        assert(0 <= w < s1.len() && s1[w].id == k2);
                        let w0 = if w < i { w } else { w + 1 };
                        assert(s1[w] == s0[w0]);
                        let v0 = spec_idx_of(s0, k2);
                        assert(0 <= v0 < s0.len() && s0[v0].id == k2);
                        if v0 != w0 {
                            assert(s0[v0].id == s0[w0].id);
                        }
                        assert(v0 == w0);
                    }
                    assert(self@ =~= old(self)@.remove(k));
                }
                true
            },
            None => {
                proof {
                    assert(!self@.contains_key(k));
                    assert(self@ =~= old(self)@.remove(k));
                }
                false
            },
        }
    }

    /// Update the record under `id` in place; reports whether it was there.
    /// `f`-style updates are spelled out per field below.
    fn update_at(&mut self, i: usize, rec: Record)
        requires
            old(self).wf(),
            i < old(self).recs@.len(),
            rec.id == old(self).recs@[i as int].id,
        ensures
            final(self).wf(),
            final(self)@ == old(self)@.insert(rec.id as int, rec@),
            final(self).spec_len() == old(self).spec_len(),
    {
        let ghost s0 = self.recs@;
        let ghost k = rec.id as int;
        proof {
            self.lemma_at(i as int);
        }
        self.recs[i] = rec;
        proof {
            let s1 = self.recs@;
            assert(s1 =~= s0.update(i as int, rec));
            assert forall|a: int, b: int|
                0 <= a < b < s1.len() implies s1[a].id != s1[b].id by {
                assert(s0[a].id != s0[b].id);
            }
            assert forall|k2: int|
                #[trigger] self@.contains_key(k2) == old(self)@.insert(k, rec@).contains_key(
                    k2,
                ) by {
                if spec_has_id(s0, k2) {
                    let w = choose|j: int| 0 <= j < s0.len() && s0[j].id == k2;
                    assert(s1[w].id == k2);
                }
                if spec_has_id(s1, k2) {
                    let w = choose|j: int| 0 <= j < s1.len() && s1[j].id == k2;
                    assert(s0[w].id == k2);
                }
            }
            assert forall|k2: int| #[trigger] self@.contains_key(k2) implies self@[k2]
                == old(self)@.insert(k, rec@)[k2] by {
                let w = spec_idx_of(s1, k2);
                assert(0 <= w < s1.len() && s1[w].id == k2);
                if k2 == k {
                    assert(w == i) by {
                        if w != i {
                            assert(s0[w].id == s0[i as int].id);
                        }
                    }
                } else {
                    assert(w != i);
                    let w0 = spec_idx_of(s0, k2);
                    assert(0 <= w0 < s0.len() && s0[w0].id == k2);
                    if w0 != w {
                        assert(s0[w0].id == s0[w].id);
                    }
                }
            }
            assert(self@ =~= old(self)@.insert(k, rec@));
        }
    }

    /// Append a signal to the record under `id`; absent ids are ignored.
    pub fn add_beat(&mut self, id: i32, time: u64) -> (r: bool)
        requires
            old(self).wf(),
        ensures
            final(self).wf(),
            final(self).spec_len() == old(self).spec_len(),
            r == old(self)@.contains_key(id as int),
            r ==> final(self)@ == old(self)@.insert(
                id as int,
                RecordV { track: spec_add(old(self)@[id as int].track, time), ..old(self)@[id as int] },
            ),
            !r ==> final(self)@ == old(self)@,
    {
        match self.find(id) {
            Some(i) => {
                proof {
                    self.lemma_at(i as int);
                }
                let mut rec = self.recs[i].clone();
                rec.add_beat(time);
                self.update_at(i, rec);
                true
            },
            None => {
                proof {
                    assert(!self@.contains_key(id as int));
                }
                false
            },
        }
    }

    /// Set the deployment timestamp of the record under `id`; absent ids
    /// are ignored.
    pub fn set_deployment(&mut self, id: i32, time: u64) -> (r: bool)
        requires
            old(self).wf(),
        ensures
            final(self).wf(),
            final(self).spec_len() == old(self).spec_len(),
            r == old(self)@.contains_key(id as int),
            r ==> final(self)@ == old(self)@.insert(
                id as int,
                RecordV { deployment: time as int, ..old(self)@[id as int] },
            ),
            !r ==> final(self)@ == old(self)@,
    {
        match self.find(id) {
            Some(i) => {
                proof {
                    self.lemma_at(i as int);
                }
                let mut rec = self.recs[i].clone();
                rec.set_deployment(time);
                self.update_at(i, rec);
                true
            },
            None => {
                proof {
                    assert(!self@.contains_key(id as int));
                }
                false
            },
        }
    }

    /// Set the expected cadence of the record under `id`; absent ids are
    /// ignored.
    pub fn set_expected_freq(&mut self, id: i32, expected: u64) -> (r: bool)
        requires
            old(self).wf(),
        ensures
            final(self).wf(),
            final(self).spec_len() == old(self).spec_len(),
            r == old(self)@.contains_key(id as int),
            r ==> final(self)@ == old(self)@.insert(
                id as int,
                RecordV { freq: expected as int, ..old(self)@[id as int] },
            ),
            !r ==> final(self)@ == old(self)@,
    {
        match self.find(id) {
            Some(i) => {
                proof {
                    self.lemma_at(i as int);
                }
                let mut rec = self.recs[i].clone();
                rec.set_expected_freq(expected);
                self.update_at(i, rec);
                true
            },
            None => {
                proof {
                    assert(!self@.contains_key(id as int));
                }
                false
            },
        }
    }

    /// The record at position `i`, for walking a snapshot.
    pub fn at(&self, i: usize) -> (r: &Record)
        requires
            self.wf(),
            i < self.spec_len(),
        ensures
            self@.contains_key(r.id as int),
            self@[r.id as int] == r@,
            r.id as int == self.spec_ids()[i as int],
    {
        proof {
            self.lemma_at(i as int);
        }
        &self.recs[i]
    }

    /// The id sequence walks the map: it is as long as the map, has no
    /// repeats, and holds exactly the map's keys.
    pub proof fn lemma_ids(&self)
        requires
            self.wf(),
        ensures
            self.spec_ids().len() == self.spec_len(),
            forall|i: int, j: int|
                0 <= i < j < self.spec_ids().len() ==> self.spec_ids()[i] != self.spec_ids()[j],
            forall|k: int| #[trigger] self@.contains_key(k) == self.spec_ids().contains(k),
    {
        let ids = self.spec_ids();
        assert forall|i: int, j: int| 0 <= i < j < ids.len() implies ids[i] != ids[j] by {
            assert(self.recs@[i].id != self.recs@[j].id);
        }
        assert forall|k: int| #[trigger] self@.contains_key(k) == ids.contains(k) by {
            if spec_has_id(self.recs@, k) {
                let w = choose|i: int| 0 <= i < self.recs@.len() && self.recs@[i].id == k;
                assert(ids[w] == k);
                assert(ids.contains(k));
            }
            if ids.contains(k) {
                let w = choose|i: int| 0 <= i < ids.len() && ids[i] == k;
                assert(self.recs@[w].id == k);
                assert(spec_has_id(self.recs@, k));
            }
        }
    }

    /// The ids of every record, in the map's internal order.
    pub fn roster(&self) -> (r: Vec<i32>)
        requires
            self.wf(),
        ensures
            r@.len() == self.spec_len(),
            forall|i: int| 0 <= i < r@.len() ==> self@.contains_key(r@[i] as int),
            forall|k: int| self@.contains_key(k) ==> exists|i: int|
                0 <= i < r@.len() && r@[i] == k,
            forall|i: int, j: int| 0 <= i < j < r@.len() ==> r@[i] != r@[j],
            r@.len() == 0 <==> forall|k: int| !self@.contains_key(k),
    {
        let n = self.recs.len();
        let mut out: Vec<i32> = Vec::new();
        let mut i: usize = 0;
        while i < n
            invariant
                self.wf(),
                i <= n,
                n == self.recs@.len(),
                out@.len() == i,
                forall|j: int| 0 <= j < i ==> out@[j] == self.recs@[j].id,
            decreases n - i,
        {
            out.push(self.recs[i].id);
            i = i + 1;
        }
        proof {
            assert forall|j: int| 0 <= j < out@.len() implies self@.contains_key(
                out@[j] as int,
            ) by {
                self.lemma_at(j);
            }
            assert forall|k: int| self@.contains_key(k) implies exists|j: int|
                0 <= j < out@.len() && out@[j] == k by {
                let w = choose|w: int| 0 <= w < self.recs@.len() && self.recs@[w].id == k;
                assert(out@[w] == k);
            }
            if n > 0 {
                self.lemma_at(0);
                assert(self@.contains_key(self.recs@[0].id as int));
            }
        }
        out
    }
}

/// A map whose ids all lie in `[0, RECORD_CAP)` holds at most `RECORD_CAP`
/// records: its records inject into that id range.
pub proof fn lemma_record_count_bounded(m: &RecordMap)
    requires
        m.wf(),
        forall|k: int| m@.contains_key(k) ==> 0 <= k < RECORD_CAP,
    ensures
        m.spec_len() <= RECORD_CAP,
{
    assert forall|i: int| 0 <= i < m.recs@.len() implies 0 <= #[trigger] m.recs@[i].id
        < RECORD_CAP by {
        m.lemma_at(i);
    }
    lemma_unique_ids_bound(m.recs@);
}

/// Pigeonhole on a full map: `RECORD_CAP` live records with ids drawn from
/// `[0, RECORD_CAP)` leave no id free.
pub proof fn lemma_full_map(m: &RecordMap)
    requires
        m.wf(),
        m.spec_len() == RECORD_CAP,
        forall|k: int| m@.contains_key(k) ==> 0 <= k < RECORD_CAP,
    ensures
        forall|k: int| 0 <= k < RECORD_CAP ==> m@.contains_key(k),
{
    let ids = Set::new(|k: int| spec_has_id(m.recs@, k));
    lemma_id_count(m.recs@);
    assert forall|k: int| ids.contains(k) implies 0 <= k < RECORD_CAP by {
        assert(m@.contains_key(k));
    }
    crate::lemma_ids_full(ids);
    assert forall|k: int| 0 <= k < RECORD_CAP implies m@.contains_key(k) by {
        assert(ids.contains(k));
    }
}

/// A sequence of records with pairwise distinct ids drawn from
/// `[0, RECORD_CAP)` has at most `RECORD_CAP` elements.
proof fn lemma_unique_ids_bound(s: Seq<Record>)
    requires
        forall|i: int, j: int| 0 <= i < j < s.len() ==> s[i].id != s[j].id,
        forall|i: int| 0 <= i < s.len() ==> 0 <= #[trigger] s[i].id < RECORD_CAP,
    ensures
        s.len() <= RECORD_CAP,
{
    let ids = Set::new(|k: int| spec_has_id(s, k));
    lemma_id_count(s);
    crate::lemma_ids_bounded(ids);
}

/// With pairwise distinct ids, the set of ids of `s` has exactly as many
/// elements as `s`.
proof fn lemma_id_count(s: Seq<Record>)
    requires
        forall|i: int, j: int| 0 <= i < j < s.len() ==> s[i].id != s[j].id,
    ensures
        Set::new(|k: int| spec_has_id(s, k)).finite(),
        Set::new(|k: int| spec_has_id(s, k)).len() == s.len(),
    decreases s.len(),
{
    let ids = Set::new(|k: int| spec_has_id(s, k));
    if s.len() == 0 {
        assert(ids =~= Set::<int>::empty());
    } else {
        let s0 = s.drop_last();
        lemma_id_count(s0);
        let ids0 = Set::new(|k: int| spec_has_id(s0, k));
        let last = s.last().id as int;
        assert forall|k: int| true implies #[trigger] ids.contains(k) == ids0.insert(
            last,
        ).contains(k) by {
            if k == last {
                assert(s[s.len() - 1].id == k);
                assert(spec_has_id(s, k));
            } else {
                if spec_has_id(s, k) {
                    let w = choose|i: int| 0 <= i < s.len() && s[i].id == k;
                    assert(w < s0.len());
                    assert(s0[w].id == k);
                    assert(spec_has_id(s0, k));
                }
                if spec_has_id(s0, k) {
                    let w = choose|i: int| 0 <= i < s0.len() && s0[i].id == k;
                    assert(s[w].id == k);
                    assert(spec_has_id(s, k));
                }
            }
        }
        assert(ids =~= ids0.insert(last));
        if ids0.contains(last) {
            let w = choose|i: int| 0 <= i < s0.len() && s0[i].id == last;
            assert(s[w].id == s[s.len() - 1].id);
            assert(false);
        }
        vstd::set::axiom_set_insert_len(ids0, last);
    }
}

impl Clone for RecordMap {
    /// A deep copy denoting the same map.
    fn clone(&self) -> (res: Self)
        ensures
            self.wf() ==> res@ == self@,
            res.wf() == self.wf(),
            res.spec_len() == self.spec_len(),
    {
        let n = self.recs.len();
        let mut v: Vec<Record> = Vec::new();
        let mut i: usize = 0;
        while i < n
            invariant
                i <= n,
                n == self.recs@.len(),
                v@.len() == i,
                forall|j: int| 0 <= j < i ==> (v@[j]@ == self.recs@[j]@ && v@[j].id
                    == self.recs@[j].id),
            decreases n - i,
        {
            v.push(self.recs[i].clone());
            i = i + 1;
        }
        let res = RecordMap { recs: v };
        proof {
            let s0 = self.recs@;
            let s1 = res.recs@;
            if self.wf() {
                assert forall|i: int, j: int| 0 <= i < j < s1.len() implies s1[i].id
                    != s1[j].id by {
                    assert(s0[i].id != s0[j].id);
                }
                assert(res.wf());
            }
            if res.wf() {
                assert forall|i: int, j: int| 0 <= i < j < s0.len() implies s0[i].id
                    != s0[j].id by {
                    assert(s1[i].id != s1[j].id);
                }
                assert(self.wf());
            }
            assert forall|k: int| #[trigger] spec_has_id(s1, k) == spec_has_id(s0, k) by {
                if spec_has_id(s0, k) {
                    let w = choose|i: int| 0 <= i < s0.len() && s0[i].id == k;
                    assert(s1[w].id == k);
                }
                if spec_has_id(s1, k) {
                    let w = choose|i: int| 0 <= i < s1.len() && s1[i].id == k;
                    assert(s0[w].id == k);
                }
            }
            if self.wf() {
                assert forall|k: int| spec_has_id(s1, k) implies #[trigger] spec_map_of(s1)[k]
                    == spec_map_of(s0)[k] by {
                    let w1 = spec_idx_of(s1, k);
                    assert(0 <= w1 < s1.len() && s1[w1].id == k);
                    assert(s0[w1].id == k);
                    let w0 = spec_idx_of(s0, k);
                    assert(0 <= w0 < s0.len() && s0[w0].id == k);
                    if w0 != w1 {
                        assert(s0[w0].id == s0[w1].id);
                    }
                }
                assert(res@ =~= self@);
            }
        }
        res
    }
}

} // verus!
