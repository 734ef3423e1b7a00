use vstd::prelude::*;
use std::collections::VecDeque;

verus! {

/// Maximum number of capture records the store retains at once.
pub const CAPACITY: usize = 10;

/// Failure reported by store operations whose state is no longer trustworthy.
#[derive(Debug, PartialEq, Eq, Clone, Copy)]
pub enum StoreError {
    /// A mutation of the store was interrupted; its contents can no longer be trusted.
    Corrupted,
}

/// Outcome of resolving an id against the store: the tri-state result keeps
/// the corruption path first-class instead of folding it into a generic error.
#[derive(Debug, PartialEq, Eq)]
pub enum GetResult {
    /// The id is retained; holds a copy of the exact payload bytes stored under it.
    Found(Vec<u8>),
    /// The id was never issued, or its record has been evicted.
    NotFound,
    /// The store was marked corrupted; its contents are not returned.
    Corrupted,
}

/// The id the next insert will assign, over the abstract window (retained
/// records, oldest first): one past the newest retained id, or 1 when the
/// store is empty.
pub open spec fn spec_next_id(s: Seq<(u64, Seq<u8>)>) -> int {
    if s.len() == 0 {
        1
    } else {
        s.last().0 + 1
    }
}

/// Well-formed retention window: bounded by the capacity, ids contiguous and
/// increasing from the oldest record, and the first id ever issued is 1 or later.
pub open spec fn window_wf(s: Seq<(u64, Seq<u8>)>) -> bool {
    &&& s.len() <= CAPACITY
    &&& (forall|i: int| 0 <= i < s.len() ==> #[trigger] s[i].0 == s[0].0 + i)
    &&& (s.len() > 0 ==> s[0].0 >= 1)
}

/// The effect of one insert on the abstract window: append the record under
/// the next id, then evict the oldest record if the window has outgrown the capacity.
pub open spec fn spec_insert(s: Seq<(u64, Seq<u8>)>, payload: Seq<u8>) -> Seq<(u64, Seq<u8>)> {
    let grown = s.push((spec_next_id(s) as u64, payload));
    if grown.len() > CAPACITY {
        grown.drop_first()
    } else {
        grown
    }
}

/// Whether `id` lies in a window's retained range, oldest to newest id.
pub open spec fn window_contains(s: Seq<(u64, Seq<u8>)>, id: u64) -> bool {
    s.len() > 0 && s[0].0 <= id <= s.last().0
}

/// A bounded, monotonically-id'd log of captured byte records.
///
/// Ids are assigned 1, 2, 3, ... for the lifetime of the store and are never
/// reused; once more than `CAPACITY` records have been inserted, each further
/// insert evicts the oldest record, so the retained ids always form a
/// contiguous window ending at the newest id.
pub struct CaptureStore {
    records: VecDeque<(u64, Vec<u8>)>,
    corrupted: bool,
}

impl View for CaptureStore {
    type V = Seq<(u64, Seq<u8>)>;

    closed spec fn view(&self) -> Seq<(u64, Seq<u8>)> {
        Seq::new(self.records@.len(), |i: int| (self.records@[i].0, self.records@[i].1@))
    }
}

impl CaptureStore {
    #[verifier::type_invariant]
    spec fn inv(self) -> bool {
        window_wf(self@)
    }

    /// Whether the store has been marked corrupted.
    pub closed spec fn is_corrupted(&self) -> bool {
        self.corrupted
    }

    /// An id is retained exactly when it lies in the current window.
    pub open spec fn contains_id(&self, id: u64) -> bool {
        window_contains(self@, id)
    }

    /// The payload stored under a retained id.
    pub open spec fn payload_at(&self, id: u64) -> Seq<u8>
        recommends
            self.contains_id(id),
    {
        self@[id - self@[0].0].1
    }

    /// Creates an empty store.
    pub fn new() -> (s: Self)
        ensures
            s@ == Seq::<(u64, Seq<u8>)>::empty(),
            !s.is_corrupted(),
    {
        let s = CaptureStore { records: VecDeque::new(), corrupted: false };
        proof {
            assert(s@ =~= Seq::<(u64, Seq<u8>)>::empty());
        }
        s
    }

    /// True when the id space is exhausted and no further record can be inserted.
    pub fn at_id_limit(&self) -> (b: bool)
        ensures
            b <==> spec_next_id(self@) > u64::MAX,
    {
        let n = self.records.len();
        n > 0 && self.records[n - 1].0 == u64::MAX
    }

    /// Marks the store corrupted: a mutation was interrupted mid-way, so all
    /// later operations must fail fast instead of returning partial data.
    pub fn mark_corrupted(&mut self)
        ensures
            final(self)@ == old(self)@,
            final(self).is_corrupted(),
    {
        proof {
            use_type_invariant(&*self);
        }
        self.corrupted = true;
    }

    /// Appends `payload` as the newest record and returns its id; evicts the
    /// oldest record when the window outgrows the capacity. Fails exactly when
    /// the store is corrupted, leaving its contents untouched.
    pub fn insert(&mut self, payload: Vec<u8>) -> (r: Result<u64, StoreError>)
        requires
            spec_next_id(old(self)@) <= u64::MAX,
        ensures
            final(self).is_corrupted() == old(self).is_corrupted(),
            old(self).is_corrupted() ==> r == Err::<u64, StoreError>(StoreError::Corrupted)
                && final(self)@ == old(self)@,
            !old(self).is_corrupted() ==> r == Ok::<u64, StoreError>(
                spec_next_id(old(self)@) as u64,
            ) && final(self)@ == spec_insert(old(self)@, payload@),
    {
        proof {
            use_type_invariant(&*self);
        }
        if self.corrupted {
            return Err(StoreError::Corrupted);
        }
        let ghost s0 = self@;
        let ghost p = payload@;
        let mut records: VecDeque<(u64, Vec<u8>)> = VecDeque::new();
        std::mem::swap(&mut records, &mut self.records);
        let n = records.len();
        let id: u64 = if n > 0 {
            records[n - 1].0 + 1
        } else {
            1
        };
        assert(id == spec_next_id(s0));
        records.push_back((id, payload));
        if records.len() > CAPACITY {
            records.pop_front();
        }
        proof {
            lemma_spec_insert_wf(s0, p);
            assert(Seq::new(records@.len(), |i: int| (records@[i].0, records@[i].1@)) =~= spec_insert(
                s0,
                p,
            ));
        }
        self.records = records;
        proof {
            assert(self@ =~= spec_insert(s0, p));
        }
        Ok(id)
    }

    /// Resolves `id` to the retained record's payload. Because retained ids are
    /// contiguous, the offset of `id` from the oldest retained id (saturating at
    /// zero) is looked up directly — a deliberate O(1) strategy in place of a
    /// lookup table — then bounds-checked and the record's own id compared, so
    /// evicted, never-issued and zero ids all miss.
    pub fn get(&self, id: u64) -> (r: GetResult)
        ensures
            r is Corrupted <==> self.is_corrupted(),
            !self.is_corrupted() ==> ((r is Found) <==> self.contains_id(id)),
            r matches GetResult::Found(p) ==> p@ == self.payload_at(id),
    {
        proof {
            use_type_invariant(&*self);
        }
        if self.corrupted {
            return GetResult::Corrupted;
        }
        let n = self.records.len();
        if n == 0 {
            return GetResult::NotFound;
        }
        let first_id = self.records[0].0;
        let offset: u64 = if id >= first_id {
            id - first_id
        } else {
            0
        };
        if offset < n as u64 {
            let entry = &self.records[offset as usize];
            proof {
                assert(self@[offset as int].0 == self@[0].0 + offset);
            }
            if entry.0 == id {
                proof {
                    broadcast use vstd::std_specs::vec::vec_clone_deep_view_proof;
                }
                return GetResult::Found(entry.1.clone());
            }
        }
        proof {
            assert(self@[self@.len() - 1].0 == self@[0].0 + (self@.len() - 1));
            if first_id <= id && id <= self@.last().0 {
                assert(self@[id - first_id].0 == self@[0].0 + (id - first_id));
            }
        }
        GetResult::NotFound
    }

    /// Lists each retained record's id and payload length, oldest first.
    /// Fails exactly when the store is corrupted.
    pub fn list_all(&self) -> (r: Result<Vec<(u64, usize)>, StoreError>)
        ensures
            r is Err <==> self.is_corrupted(),
            r matches Ok(entries) ==> entries@.len() == self@.len() && (forall|i: int|
                0 <= i < self@.len() ==> #[trigger] entries@[i].0 == self@[i].0
                    && entries@[i].1 == self@[i].1.len()),
    {
        proof {
            use_type_invariant(&*self);
        }
        if self.corrupted {
            return Err(StoreError::Corrupted);
        }
        let n = self.records.len();
        let mut entries: Vec<(u64, usize)> = Vec::new();
        let mut i: usize = 0;
        while i < n
            invariant
                i <= n,
                n == self@.len(),
                n == self.records@.len(),
                entries@.len() == i,
                forall|j: int| 0 <= j < i ==> #[trigger] entries@[j].0 == self@[j].0
                    && entries@[j].1 == self@[j].1.len(),
            decreases n - i,
        {
            let entry = &self.records[i];
            let eid = entry.0;
            let elen = entry.1.len();
            entries.push((eid, elen));
            proof {
                assert(self@[i as int] == (self.records@[i as int].0, self.records@[i as int].1@));
                assert(entries@[i as int] == (eid, elen));
                assert(self@[i as int].0 == eid);
                assert(self@[i as int].1.len() == elen);
            }
            i += 1;
        }
        Ok(entries)
    }
}

/// One insert on a well-formed window with an unexhausted id space keeps it
/// well-formed: the new record carries the next id, at most the oldest record
/// leaves, and all other records shift down by at most one position.
proof fn lemma_spec_insert_wf(s: Seq<(u64, Seq<u8>)>, p: Seq<u8>)
    requires
        window_wf(s),
        spec_next_id(s) <= u64::MAX,
    ensures
        window_wf(spec_insert(s, p)),
        spec_next_id(spec_insert(s, p)) == spec_next_id(s) + 1,
        spec_insert(s, p).len() == if s.len() < CAPACITY {
            s.len() + 1
        } else {
            CAPACITY as nat
        },
        spec_insert(s, p).last() == (spec_next_id(s) as u64, p),
        forall|i: int| 0 <= i < spec_insert(s, p).len() ==> #[trigger] spec_insert(s, p)[i].0
            == spec_next_id(s) - (spec_insert(s, p).len() - 1 - i),
        forall|i: int| 0 <= i < spec_insert(s, p).len() - 1 ==> #[trigger] spec_insert(s, p)[i]
            == s[i + (s.len() - (spec_insert(s, p).len() - 1))],
{
    let t = s.push((spec_next_id(s) as u64, p));
    let w = spec_insert(s, p);
    if s.len() > 0 {
        assert(s.last().0 == s[0].0 + (s.len() - 1));
    }
    assert(t.last() == (spec_next_id(s) as u64, p));
    if t.len() > CAPACITY {
        let u = t.drop_first();
        assert(u.len() == s.len());
        assert forall|i: int| 0 <= i < u.len() implies #[trigger] u[i].0 == u[0].0 + i by {
            assert(u[i] == t[i + 1]);
            assert(u[0] == t[1]);
            if i + 1 < s.len() {
                assert(t[i + 1] == s[i + 1]);
            }
        }
        assert(w == u);
        assert(w.last() == t.last());
    } else {
        assert forall|i: int| 0 <= i < t.len() implies #[trigger] t[i].0 == t[0].0 + i by {
            if i < s.len() {
                assert(t[i] == s[i]);
            }
        }
        assert(w == t);
    }
    assert(w.last().0 == w[0].0 + (w.len() - 1));
    assert(w.last().0 == spec_next_id(s));
    assert forall|i: int| 0 <= i < w.len() implies #[trigger] w[i].0 == spec_next_id(s) - (w.len()
        - 1 - i) by {
        assert(w[i].0 == w[0].0 + i);
    }
    assert forall|i: int| 0 <= i < w.len() - 1 implies #[trigger] w[i] == s[i + (s.len() - (w.len()
        - 1))] by {
        if t.len() > CAPACITY {
            assert(w[i] == t[i + 1]);
            assert(t[i + 1] == s[i + 1]);
        } else {
            assert(w[i] == t[i]);
            assert(t[i] == s[i]);
        }
    }
}

/// The abstract store contents after inserting `payloads`, in order, into an
/// empty store.
pub open spec fn run(payloads: Seq<Seq<u8>>) -> Seq<(u64, Seq<u8>)>
    decreases payloads.len(),
{
    if payloads.len() == 0 {
        Seq::empty()
    } else {
        spec_insert(run(payloads.drop_last()), payloads.last())
    }
}

/// The id handed back by insert number `k` (0-based) of such a run.
pub open spec fn assigned_id(payloads: Seq<Seq<u8>>, k: int) -> int {
    spec_next_id(run(payloads.take(k)))
}

/// Shape of the store after any run of inserts from empty: the window is
/// well-formed, holds the most recent records up to the capacity, the next id
/// is the number of inserts plus one, and each retained record still carries
/// the exact payload bytes of the insert that produced its id.
pub proof fn lemma_run_window(payloads: Seq<Seq<u8>>)
    requires
        payloads.len() <= u64::MAX,
    ensures
        window_wf(run(payloads)),
        spec_next_id(run(payloads)) == payloads.len() + 1,
        run(payloads).len() == if payloads.len() <= CAPACITY {
            payloads.len()
        } else {
            CAPACITY as nat
        },
        forall|i: int| 0 <= i < run(payloads).len() ==> #[trigger] run(payloads)[i].0
            == payloads.len() - (run(payloads).len() - 1 - i),
        forall|i: int| 0 <= i < run(payloads).len() ==> #[trigger] run(payloads)[i].1
            == payloads[run(payloads)[i].0 - 1],
    decreases payloads.len(),
{
    if payloads.len() > 0 {
        let prev = payloads.drop_last();
        let s = run(prev);
        let w = run(payloads);
        lemma_run_window(prev);
        lemma_spec_insert_wf(s, payloads.last());
        assert(w == spec_insert(s, payloads.last()));
        assert(w.last() == (spec_next_id(s) as u64, payloads.last()));
        assert forall|i: int| 0 <= i < w.len() implies #[trigger] w[i].1 == payloads[w[i].0
            - 1] by {
            if i < w.len() - 1 {
                let j = i + (s.len() - (w.len() - 1));
                assert(w[i] == s[j]);
                assert(s[j].1 == prev[s[j].0 - 1]);
                assert(prev[s[j].0 - 1] == payloads[s[j].0 - 1]);
            } else {
                assert(w[i] == w.last());
            }
        }
    }
}

/// The ids returned by any sequence of N inserts are exactly 1, 2, ..., N, in
/// the order the inserts took effect.
pub proof fn lemma_ids_sequential(payloads: Seq<Seq<u8>>, k: int)
    requires
        payloads.len() <= u64::MAX,
        0 <= k < payloads.len(),
    ensures
        assigned_id(payloads, k) == k + 1,
{
    lemma_run_window(payloads.take(k));
}

/// After any sequence of inserts the store retains at most `CAPACITY` records,
/// and once more than `CAPACITY` inserts have happened, the retained ids are
/// exactly the most recent `CAPACITY` ones.
pub proof fn lemma_bounded_retention(payloads: Seq<Seq<u8>>)
    requires
        payloads.len() <= u64::MAX,
    ensures
        run(payloads).len() <= CAPACITY,
        payloads.len() >= CAPACITY ==> run(payloads).len() == CAPACITY,
        payloads.len() > CAPACITY ==> forall|i: int| 0 <= i < CAPACITY ==> #[trigger] run(
            payloads,
        )[i].0 == payloads.len() - (CAPACITY - 1 - i),
{
    lemma_run_window(payloads);
}

/// A retained record's payload is byte-for-byte the payload passed to the
/// insert that produced its id.
pub proof fn lemma_retained_payload(payloads: Seq<Seq<u8>>, i: int)
    requires
        payloads.len() <= u64::MAX,
        0 <= i < run(payloads).len(),
    ensures
        1 <= run(payloads)[i].0 <= payloads.len(),
        run(payloads)[i].1 == payloads[run(payloads)[i].0 - 1],
{
    lemma_run_window(payloads);
}

/// After any run of N inserts, an id is retained exactly when it lies in the
/// window of the most recent ids; in particular id 0, ids above N, and evicted
/// ids all miss.
pub proof fn lemma_window_membership(payloads: Seq<Seq<u8>>, id: u64)
    requires
        payloads.len() <= u64::MAX,
    ensures
        window_contains(run(payloads), id) <==> (payloads.len() - run(payloads).len() < id
            <= payloads.len()),
{
    lemma_run_window(payloads);
    let w = run(payloads);
    if w.len() > 0 {
        assert(w[0].0 == payloads.len() - (w.len() - 1));
        assert(w.last() == w[w.len() - 1]);
        assert(w[w.len() - 1].0 == payloads.len());
    }
}

} // verus!
