//! The runtime change-log cursor.

use crate::engine::RrflowMxStore;
use crate::error::{Error, Result};
use crate::key_codec::KeyPartValue;
use crate::keyspaces::{self, spec_space_key, Space, SystemEntry};
use crate::repository::common::{lemma_is_space_key, parse_u64, read_sequence};
use vstd::prelude::*;

verus! {

/// The key of the runtime cursor.
pub open spec fn runtime_cursor_key_of() -> Seq<u8> {
    spec_space_key(Space::System, seq![KeyPartValue::U8(SystemEntry::RuntimeCursor.spec_tag())])
}

/// The runtime repository.
pub struct RuntimeRepository;

impl RuntimeRepository {
    /// The repository.
    pub fn new() -> (r: Self) {
        RuntimeRepository
    }

    /// The runtime change-log cursor as of the newest commit; 0 before any change.
    pub fn cursor(&self, store: &RrflowMxStore) -> (r: Result<u64>)
        requires
            store.wf(),
        ensures
            match store.read_at(runtime_cursor_key_of(), store.sequence() as int) {
                None => r == Ok::<u64, Error>(0),
                Some(bytes) => match parse_u64(bytes) {
                    Some(n) => r == Ok::<u64, Error>(n),
                    None => r matches Err(Error::CorruptWatermark(_)),
                },
            },
    {
        let transaction = store.begin_transaction();
        let key = keyspaces::runtime_cursor_key();
        proof {
            lemma_is_space_key(Space::System, seq![KeyPartValue::U8(SystemEntry::RuntimeCursor.spec_tag())]);
        }
        read_sequence(&transaction, store, key.as_slice())
    }
}

} // verus!
