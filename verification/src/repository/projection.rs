//! Derived claim projections, stored as opaque bytes under their names.
//! Authoritative claims are read through the claim repository; projection
//! bytes never become source truth.

use crate::engine::{bytes_opt, RrflowMxStore};
use crate::error::Result;
use crate::key_codec::KeyPartValue;
use crate::keyspaces::{self, spec_space_key, Durability, Space, PROJECTIONS};
use crate::repository::common::{checked_key, get, lemma_is_space_key};
use vstd::prelude::*;

verus! {

/// The key a projection named `name` is stored under.
pub open spec fn projection_key_of(name: Seq<char>) -> Seq<u8> {
    spec_space_key(Space::Projections, seq![KeyPartValue::Text(name)])
}

/// The projection repository.
pub struct ProjectionRepository;

impl ProjectionRepository {
    /// The repository.
    pub fn new() -> (r: Self) {
        ProjectionRepository
    }

    /// The stored bytes of the projection `name`, as of the newest commit.
    pub fn get(&self, store: &RrflowMxStore, name: &str) -> (r: Result<Option<Vec<u8>>>)
        requires
            store.wf(),
        ensures
            r matches Ok(v) && bytes_opt(v) == store.read_at(projection_key_of(name@), store.sequence() as int),
    {
        let transaction = store.begin_transaction();
        let key = keyspaces::projection_key(name);
        proof {
            lemma_is_space_key(Space::Projections, seq![KeyPartValue::Text(name@)]);
        }
        get(&transaction, store, PROJECTIONS, key.as_slice())
    }

    /// Stores `bytes` as the projection `name` in one transaction.
    pub fn put_with(&self, store: &mut RrflowMxStore, name: &str, bytes: &[u8], durability: Durability) -> (r: Result<()>)
        requires
            old(store).wf(),
        ensures
            final(store).wf(),
            old(store).sequence() < u64::MAX ==> r is Ok,
            r is Ok ==> final(store).sequence() == old(store).sequence() + 1
                && final(store).read_at(projection_key_of(name@), final(store).sequence() as int) == Some(bytes@)
                && forall|k: Seq<u8>| k != projection_key_of(name@) ==> #[trigger] final(store).read_at(k, final(store).sequence() as int)
                    == old(store).read_at(k, old(store).sequence() as int),
            r is Err ==> *final(store) == *old(store),
    {
        let mut transaction = store.begin_transaction();
        let key = keyspaces::projection_key(name);
        proof {
            lemma_is_space_key(Space::Projections, seq![KeyPartValue::Text(name@)]);
        }
        let checked = checked_key(PROJECTIONS, key.as_slice())?;
        let mut value: Vec<u8> = Vec::new();
        crate::bytes::push_all(&mut value, bytes);
        assert(value@ =~= bytes@);
        transaction.put(checked, value);
        proof {
            assert(transaction.writes() == Map::<Seq<u8>, Option<Seq<u8>>>::empty().insert(projection_key_of(name@), Some(bytes@)));
            assert(transaction.writes().dom().len() == 1) by {
                assert(transaction.writes().dom() =~= set![projection_key_of(name@)]);
            }
        }
        proof {
            crate::engine::lemma_write_count(transaction);
            crate::engine::lemma_fresh_snapshot_no_conflict(*old(store), transaction);
        }
        transaction.commit(store, durability)?;
        Ok(())
    }

    /// Stores `bytes` as the projection `name`, buffered.
    pub fn put(&self, store: &mut RrflowMxStore, name: &str, bytes: &[u8]) -> (r: Result<()>)
        requires
            old(store).wf(),
        ensures
            final(store).wf(),
            old(store).sequence() < u64::MAX ==> r is Ok,
            r is Ok ==> final(store).sequence() == old(store).sequence() + 1
                && final(store).read_at(projection_key_of(name@), final(store).sequence() as int) == Some(bytes@)
                && forall|k: Seq<u8>| k != projection_key_of(name@) ==> #[trigger] final(store).read_at(k, final(store).sequence() as int)
                    == old(store).read_at(k, old(store).sequence() as int),
            r is Err ==> *final(store) == *old(store),
    {
        self.put_with(store, name, bytes, Durability::Buffered)
    }
}

} // verus!
