//! Per-user template store.
//!
//! The store holds enrolled face models keyed by their stable identifier,
//! with secondary access by username. Records are immutable after insert;
//! only whole-record delete is permitted, and only by the owning user.
//! Persistence is the host program's concern: it loads records from disk
//! through `open_from_records` and writes the current records back after
//! each mutation.

use vstd::prelude::*;
use crate::types::Embedding;
use crate::types::FaceModel;
use crate::types::FaceModelView;

verus! {

/// Store failure surfaced to callers.
#[derive(Clone, Copy, Debug, PartialEq, Eq, Structural)]
pub enum StoreError {
    /// An inserted or loaded record reuses an existing identifier.
    DuplicateId,
    /// A loaded record carries an embedding outside the matcher's bounds.
    MalformedEmbedding,
}

/// Abstract values of a sequence of records.
pub open spec fn views_of(s: Seq<FaceModel>) -> Seq<FaceModelView> {
    Seq::new(s.len(), |i: int| s[i]@)
}

/// Identifiers are unique across the records.
pub open spec fn ids_unique(v: Seq<FaceModelView>) -> bool {
    forall|i: int, j: int| 0 <= i < j < v.len() ==> (#[trigger] v[i]).id != (#[trigger] v[j]).id
}

/// The records owned by `user`, in insertion order.
pub open spec fn user_models(v: Seq<FaceModelView>, user: Seq<char>) -> Seq<FaceModelView>
    decreases v.len(),
{
    if v.len() == 0 {
        Seq::empty()
    } else {
        let rest = user_models(v.drop_last(), user);
        if v.last().user == user {
            rest.push(v.last())
        } else {
            rest
        }
    }
}

/// In-memory face model store.
pub struct FaceModelStore {
    models: Vec<FaceModel>,
}

impl View for FaceModelStore {
    type V = Seq<FaceModelView>;

    closed spec fn view(&self) -> Seq<FaceModelView> {
        views_of(self.models@)
    }
}

impl FaceModelStore {
    /// Invariant: identifiers unique, every embedding within matcher bounds.
    pub open spec fn wf(&self) -> bool {
        &&& ids_unique(self@)
        &&& forall|i: int|
            0 <= i < self@.len() ==> crate::types::embedding_values_wf(
                (#[trigger] self@[i]).embedding,
            )
    }

    /// An empty store, as created on first open.
    pub fn new() -> (s: Self)
        ensures
            s@ =~= Seq::<FaceModelView>::empty(),
            s.wf(),
    {
        FaceModelStore { models: Vec::new() }
    }

    /// Build a store from loaded records, validating the store invariants:
    /// fails with `DuplicateId` on a reused identifier and with
    /// `MalformedEmbedding` on an embedding outside the matcher's bounds.
    pub fn open_from_records(models: Vec<FaceModel>) -> (r: Result<Self, StoreError>)
        ensures
            match r {
                Ok(s) => s@ =~= views_of(models@) && s.wf(),
                Err(_) => !(ids_unique(views_of(models@)) && forall|i: int|
                    0 <= i < models@.len() ==> (#[trigger] models@[i]).embedding.wf()),
            },
    {
        let mut i: usize = 0;
        while i < models.len()
            invariant
                i <= models@.len(),
                forall|p: int, q: int|
                    0 <= p < q < i ==> (#[trigger] models@[p])@.id != (#[trigger] models@[q])@.id,
                forall|p: int| 0 <= p < i ==> (#[trigger] models@[p]).embedding.wf(),
            decreases models@.len() - i,
        {
            if !(models[i].embedding.values.len() <= crate::types::MAX_EMBEDDING_LEN) {
                return Err(StoreError::MalformedEmbedding);
            }
            let mut k: usize = 0;
            while k < models[i].embedding.values.len()
                invariant
                    i < models@.len(),
                    k <= models@[i as int].embedding.values@.len(),
                    forall|t: int|
                        0 <= t < k ==> -crate::types::SIM_SCALE_PPM <= (
                        #[trigger] models@[i as int].embedding.values@[t])
                            <= crate::types::SIM_SCALE_PPM,
                decreases models@[i as int].embedding.values@.len() - k,
            {
                let v = models[i].embedding.values[k];
                if v < -crate::types::SIM_SCALE_PPM as i32 || v > crate::types::SIM_SCALE_PPM
                    as i32 {
                    return Err(StoreError::MalformedEmbedding);
                }
                k = k + 1;
            }
            let mut j: usize = 0;
            while j < i
                invariant
                    i < models@.len(),
                    forall|p: int| 0 <= p < j ==> (#[trigger] models@[p])@.id != models@[
                        i as int
                    ]@.id,
                decreases i - j,
            {
                if models[j].id == models[i].id {
                    proof {
                        let v = views_of(models@);
                        assert(v[j as int].id == v[i as int].id);
                        assert(!ids_unique(v));
                    }
                    return Err(StoreError::DuplicateId);
                }
                j = j + 1;
            }
            i = i + 1;
        }
        Ok(FaceModelStore { models })
    }

    /// Number of enrolled models across all users.
    pub fn count_all(&self) -> (r: u64)
        requires
            self@.len() <= u64::MAX,
        ensures
            r == self@.len(),
    {
        self.models.len() as u64
    }

    /// Insert a new record. The identifier and creation timestamp come from
    /// the host (a fresh random identifier and the current time); the insert
    /// refuses a reused identifier and leaves the store unchanged then.
    pub fn insert(&mut self, model: FaceModel) -> (r: Result<(), StoreError>)
        requires
            old(self).wf(),
            model.embedding.wf(),
        ensures
            final(self).wf(),
            match r {
                Ok(()) => {
                    &&& forall|i: int| 0 <= i < old(self)@.len() ==> (#[trigger] old(
                        self,
                    )@[i]).id != model@.id
                    &&& final(self)@ =~= old(self)@.push(model@)
                },
                Err(_) => {
                    &&& exists|i: int| 0 <= i < old(self)@.len() && (#[trigger] old(
                        self,
                    )@[i]).id == model@.id
                    &&& final(self)@ =~= old(self)@
                },
            },
    {
        let mut j: usize = 0;
        while j < self.models.len()
            invariant
                self == old(self),
                self.wf(),
                forall|p: int| 0 <= p < j ==> (#[trigger] self.models@[p])@.id != model@.id,
            decreases self.models@.len() - j,
        {
            if self.models[j].id == model.id {
                proof {
                    assert(0 <= j < old(self)@.len() && old(self)@[j as int].id == model@.id);
                }
                return Err(StoreError::DuplicateId);
            }
            j = j + 1;
        }
        self.models.push(model);
        Ok(())
    }

    /// All records owned by `user`, in insertion order, copied out by value
    /// so the caller holds no lock while using them.
    pub fn get_gallery_for_user(&self, user: &str) -> (g: Vec<FaceModel>)
        requires
            self.wf(),
        ensures
            views_of(g@) =~= user_models(self@, user@),
            crate::types::gallery_wf(g@),
    {
        let mut out: Vec<FaceModel> = Vec::new();
        let mut i: usize = 0;
        while i < self.models.len()
            invariant
                i <= self.models@.len(),
                self.wf(),
                views_of(out@) =~= user_models(self@.take(i as int), user@),
                crate::types::gallery_wf(out@),
            decreases self.models@.len() - i,
        {
            proof {
                assert(self@.take(i + 1).drop_last() =~= self@.take(i as int));
                assert(self@.take(i + 1).last() == self@[i as int]);
            }
            if string_eq_str(&self.models[i].user, user) {
                let m = self.models[i].clone();
                out.push(m);
                proof {
                    assert(views_of(out@) =~= user_models(self@.take(i + 1), user@));
                }
            } else {
                proof {
                    assert(views_of(out@) =~= user_models(self@.take(i + 1), user@));
                }
            }
            i = i + 1;
        }
        proof {
            assert(self@.take(self.models@.len() as int) =~= self@);
        }
        out
    }

    /// All records, copied out by value; what the host persists.
    pub fn all_models(&self) -> (g: Vec<FaceModel>)
        ensures
            views_of(g@) =~= self@,
    {
        let mut out: Vec<FaceModel> = Vec::new();
        let mut i: usize = 0;
        while i < self.models.len()
            invariant
                i <= self.models@.len(),
                views_of(out@) =~= self@.take(i as int),
            decreases self.models@.len() - i,
        {
            let m = self.models[i].clone();
            out.push(m);
            proof {
                assert(self@.take(i + 1).drop_last() =~= self@.take(i as int));
                assert(self@.take(i + 1).last() == self@[i as int]);
                assert(views_of(out@) =~= self@.take(i + 1));
            }
            i = i + 1;
        }
        proof {
            assert(self@.take(self.models@.len() as int) =~= self@);
        }
        out
    }

    /// The records listed for `user`: the user's gallery with its metadata.
    pub fn list_by_user(&self, user: &str) -> (g: Vec<FaceModel>)
        requires
            self.wf(),
        ensures
            views_of(g@) =~= user_models(self@, user@),
    {
        self.get_gallery_for_user(user)
    }

    /// Remove the record with identifier `id`, but only when `user` owns it.
    /// Returns whether a record was removed; on false the store is unchanged.
    pub fn remove(&mut self, user: &str, id: &str) -> (removed: bool)
        requires
            old(self).wf(),
        ensures
            final(self).wf(),
            removed == exists|i: int|
                0 <= i < old(self)@.len() && (#[trigger] old(self)@[i]).id == id@ && old(
                    self,
                )@[i].user == user@,
            removed ==> exists|i: int|
                {
                    &&& 0 <= i < old(self)@.len()
                    &&& (#[trigger] old(self)@[i]).id == id@
                    &&& old(self)@[i].user == user@
                    &&& final(self)@ =~= old(self)@.remove(i)
                },
            !removed ==> final(self)@ =~= old(self)@,
    {
        let mut i: usize = 0;
        while i < self.models.len()
            invariant
                i <= self.models@.len(),
                self == old(self),
                self.wf(),
                forall|p: int|
                    0 <= p < i ==> !((#[trigger] self@[p]).id == id@ && self@[p].user == user@),
            decreases self.models@.len() - i,
        {
            if string_eq_str(&self.models[i].id, id) && string_eq_str(&self.models[i].user, user) {
                proof {
                    assert(0 <= i < old(self)@.len() && old(self)@[i as int].id == id@ && old(
                        self,
                    )@[i as int].user == user@);
                }
                self.models.remove(i);
                proof {
                    assert(views_of(self.models@) =~= views_of(old(self).models@).remove(i as int));
                    assert(self@ =~= old(self)@.remove(i as int));
                }
                return true;
            }
            i = i + 1;
        }
        false
    }
}

/// After an insert, the owner's listing ends with the new record: inserting
/// a record and listing its user's models shows the new identifier.
pub proof fn lemma_insert_then_listed(s: Seq<FaceModelView>, m: FaceModelView)
    ensures
        user_models(s.push(m), m.user) == user_models(s, m.user).push(m),
        user_models(s.push(m), m.user).len() >= 1,
        user_models(s.push(m), m.user).last() == m,
{
    let v = s.push(m);
    assert(v.drop_last() =~= s);
    assert(v.last() == m);
}

/// Removing a record by its identifier removes it for good: with unique
/// identifiers, no record with that identifier remains, so a second removal
/// finds nothing. Removal succeeds exactly once.
pub proof fn lemma_remove_id_gone(s: Seq<FaceModelView>, i: int, id: Seq<char>)
    requires
        ids_unique(s),
        0 <= i < s.len(),
        s[i].id == id,
    ensures
        forall|j: int| 0 <= j < s.remove(i).len() ==> (#[trigger] s.remove(i)[j]).id != id,
{
    assert forall|j: int| 0 <= j < s.remove(i).len() implies (#[trigger] s.remove(i)[j]).id
        != id by {
        if j < i {
            assert(s.remove(i)[j] == s[j]);
        } else {
            assert(s.remove(i)[j] == s[j + 1]);
        }
    }
}

/// A removal by another user leaves the record intact: with unique
/// identifiers, when the record with `id` belongs to `owner`, a removal
/// request from any other user matches nothing, so it returns false and the
/// store is unchanged.
pub proof fn lemma_remove_wrong_user(s: Seq<FaceModelView>, i: int, id: Seq<char>, other: Seq<char>)
    requires
        ids_unique(s),
        0 <= i < s.len(),
        s[i].id == id,
        s[i].user != other,
    ensures
        !exists|j: int| 0 <= j < s.len() && (#[trigger] s[j]).id == id && s[j].user == other,
{
    assert forall|j: int| 0 <= j < s.len() && (#[trigger] s[j]).id == id implies s[j].user
        != other by {
        if j != i {
            assert(s[j].id != s[i].id);
        }
    }
}

/// Compare a `String` with a string slice by contents.
fn string_eq_str(a: &String, b: &str) -> (r: bool)
    ensures
        r == (a@ == b@),
{
    let bs: String = b.to_owned();
    *a == bs
}

} // verus!
