use vstd::prelude::*;

use crate::error::ServiceError;

verus! {

/// A record that a store keeps under a numeric identity.
pub trait Record: Sized {
    /// The identity of the record.
    spec fn key(&self) -> u32;

    fn get_id(&self) -> (r: u32)
        ensures
            r == self.key(),
    ;
}

/// The identities of `s`, in order.
pub open spec fn keys_of<T: Record>(s: Seq<T>) -> Seq<u32> {
    s.map_values(|r: T| r.key())
}

/// Whether no two records of `s` share an identity.
pub open spec fn keys_unique<T: Record>(s: Seq<T>) -> bool {
    forall|i: int, j: int| 0 <= i < j < s.len() ==> #[trigger] s[i].key() != #[trigger] s[j].key()
}

/// Whether some record of `s` has identity `id`.
pub open spec fn has_key<T: Record>(s: Seq<T>, id: u32) -> bool {
    exists|i: int| 0 <= i < s.len() && #[trigger] s[i].key() == id
}

/// The largest of `ids`, or 0 when there is none.
pub open spec fn max_of(ids: Seq<u32>) -> nat
    decreases ids.len(),
{
    if ids.len() == 0 {
        0
    } else {
        let m = max_of(ids.drop_last());
        if ids.last() > m {
            ids.last() as nat
        } else {
            m
        }
    }
}

/// No identity exceeds the largest.
pub proof fn lemma_max_of_bounds(ids: Seq<u32>)
    ensures
        forall|i: int| 0 <= i < ids.len() ==> #[trigger] ids[i] <= max_of(ids),
        max_of(ids) <= u32::MAX,
    decreases ids.len(),
{
    if ids.len() > 0 {
        lemma_max_of_bounds(ids.drop_last());
        assert forall|i: int| 0 <= i < ids.len() implies #[trigger] ids[i] <= max_of(ids) by {
            if i < ids.len() - 1 {
                assert(ids[i] == ids.drop_last()[i]);
            }
        }
    }
}

/// Replacing a record by one with the same identity keeps the identities distinct.
pub proof fn lemma_update_same_key<T: Record>(s: Seq<T>, i: int, t: T)
    requires
        keys_unique(s),
        0 <= i < s.len(),
        t.key() == s[i].key(),
    ensures
        keys_unique(s.update(i, t)),
{
    let u = s.update(i, t);
    assert forall|a: int, b: int| 0 <= a < b < u.len() implies #[trigger] u[a].key() != #[trigger] u[b].key() by {
        assert(u[a].key() == s[a].key());
        assert(u[b].key() == s[b].key());
    }
}

/// An ordered collection of records with distinct identities, kept in insertion order.
pub struct RecordStore<T> {
    records: Vec<T>,
}

impl<T: Record> View for RecordStore<T> {
    type V = Seq<T>;

    closed spec fn view(&self) -> Seq<T> {
        self.records@
    }
}

impl<T: Record> RecordStore<T> {
    /// No two records share an identity.
    pub open spec fn wf(&self) -> bool {
        keys_unique(self@)
    }

    /// An empty store.
    pub fn new() -> (r: Self)
        ensures
            r@ == Seq::<T>::empty(),
            r.wf(),
    {
        RecordStore { records: Vec::new() }
    }

    /// A store holding `records` in their order; refused when two of them share an identity.
    pub fn load(records: Vec<T>) -> (r: Result<Self, ServiceError>)
        ensures
            match r {
                Ok(s) => s@ == records@ && s.wf(),
                Err(e) => !keys_unique(records@) && e is InternalError,
            },
    {
        let n = records.len();
        let mut i: usize = 0;
        while i < n
            invariant
                n == records@.len(),
                i <= n,
                keys_unique(records@.subrange(0, i as int)),
            decreases n - i,
        {
            let id = records[i].get_id();
            let mut j: usize = 0;
            while j < i
                invariant
                    n == records@.len(),
                    j <= i < n,
                    id == records@[i as int].key(),
                    forall|k: int| 0 <= k < j ==> #[trigger] records@[k].key() != id,
                decreases i - j,
            {
                if records[j].get_id() == id {
                    assert(records@[j as int].key() == records@[i as int].key());
                    return Err(ServiceError::internal_error("stored records share an identity"));
                }
                j = j + 1;
            }
            i = i + 1;
            assert(keys_unique(records@.subrange(0, i as int)));
        }
        assert(records@.subrange(0, n as int) =~= records@);
        Ok(RecordStore { records })
    }

    /// The records, in insertion order, for writing out.
    pub fn into_records(self) -> (r: Vec<T>)
        ensures
            r@ == self@,
    {
        self.records
    }

    /// The number of records.
    pub fn len(&self) -> (r: usize)
        ensures
            r == self@.len(),
    {
        self.records.len()
    }

    /// The records, in insertion order.
    pub fn as_vec(&self) -> (r: &Vec<T>)
        ensures
            r@ == self@,
    {
        &self.records
    }

    /// The position of the record with identity `id`, if there is one.
    pub fn position(&self, id: u32) -> (r: Option<usize>)
        requires
            self.wf(),
        ensures
            match r {
                Some(i) => i < self@.len() && self@[i as int].key() == id,
                None => !has_key(self@, id),
            },
    {
        let n = self.records.len();
        let mut i: usize = 0;
        while i < n
            invariant
                n == self@.len(),
                i <= n,
                forall|k: int| 0 <= k < i ==> #[trigger] self@[k].key() != id,
            decreases n - i,
        {
            if self.records[i].get_id() == id {
                return Some(i);
            }
            i = i + 1;
        }
        None
    }

    /// The record with identity `id`.
    pub fn find_id(&self, id: u32) -> (r: Result<&T, ServiceError>)
        requires
            self.wf(),
        ensures
            match r {
                Ok(rec) => rec.key() == id && exists|i: int|
                    0 <= i < self@.len() && self@[i] == *rec,
                Err(e) => !has_key(self@, id) && e is NotFound,
            },
    {
        match self.position(id) {
            Some(i) => Ok(&self.records[i]),
            None => Err(ServiceError::not_found("no record with this id")),
        }
    }

    /// The record at position `i`, to change in place.
    pub(crate) fn get_mut(&mut self, i: usize) -> (r: &mut T)
        requires
            i < old(self)@.len(),
        ensures
            *r == old(self)@[i as int],
            final(self)@ == old(self)@.update(i as int, *final(r)),
    {
        &mut self.records[i]
    }

    /// The record at position `i`.
    pub fn get(&self, i: usize) -> (r: &T)
        requires
            i < self@.len(),
        ensures
            *r == self@[i as int],
    {
        &self.records[i]
    }

    /// The identities of all records, in insertion order.
    pub fn ids(&self) -> (r: Vec<u32>)
        ensures
            r@ == keys_of(self@),
    {
        let n = self.records.len();
        let mut r: Vec<u32> = Vec::new();
        let mut i: usize = 0;
        while i < n
            invariant
                n == self@.len(),
                i <= n,
                r@ == keys_of(self@.subrange(0, i as int)),
            decreases n - i,
        {
            r.push(self.records[i].get_id());
            assert(keys_of(self@.subrange(0, i + 1)) =~= keys_of(self@.subrange(0, i as int)).push(
                self@[i as int].key(),
            ));
            i = i + 1;
        }
        assert(self@.subrange(0, n as int) =~= self@);
        r
    }

    /// Appends `record`; refused when its identity is taken.
    pub fn insert(&mut self, record: T) -> (r: Result<(), ServiceError>)
        requires
            old(self).wf(),
        ensures
            final(self).wf(),
            match r {
                Ok(()) => !has_key(old(self)@, record.key()) && final(self)@ == old(self)@.push(
                    record,
                ),
                Err(e) => has_key(old(self)@, record.key()) && e is AlreadyExists && final(self)@
                    == old(self)@,
            },
    {
        let id = record.get_id();
        match self.position(id) {
            Some(_) => Err(ServiceError::already_exist("id is already taken")),
            None => {
                self.records.push(record);
                assert forall|i: int, j: int| 0 <= i < j < self@.len() implies #[trigger] self@[i].key()
                    != #[trigger] self@[j].key() by {
                    if j == self@.len() - 1 {
                        assert(self@[i] == old(self)@[i]);
                    } else {
                        assert(self@[i] == old(self)@[i]);
                        assert(self@[j] == old(self)@[j]);
                    }
                }
                Ok(())
            },
        }
    }

    /// The next identity to hand out: one above the largest, or 1 when the store is empty;
    /// refused when the largest is already `u32::MAX`.
    pub fn next_id(&self) -> (r: Result<u32, ServiceError>)
        ensures
            match r {
                Ok(id) => id == max_of(keys_of(self@)) + 1,
                Err(e) => max_of(keys_of(self@)) == u32::MAX && e is InternalError,
            },
    {
        let n = self.records.len();
        let mut latest: u32 = 0;
        let mut i: usize = 0;
        while i < n
            invariant
                n == self@.len(),
                i <= n,
                latest == max_of(keys_of(self@.subrange(0, i as int))),
            decreases n - i,
        {
            let id = self.records[i].get_id();
            assert(keys_of(self@.subrange(0, i + 1)).drop_last() =~= keys_of(
                self@.subrange(0, i as int),
            ));
            if id > latest {
                latest = id;
            }
            i = i + 1;
        }
        assert(self@.subrange(0, n as int) =~= self@);
        if latest == u32::MAX {
            Err(ServiceError::internal_error("no identity is left to hand out"))
        } else {
            Ok(latest + 1)
        }
    }
}

} // verus!
