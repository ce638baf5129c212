//! The storage coordinator's ownership of one engine and one object tier,
//! and the steps at which its stage, verify and commit boundary can be
//! observed.

use crate::error::{text, Error, Result};
use crate::function::utf8;
use crate::object::{canonical_object_key, MemoryObjectStore, ObjectReference};
use vstd::prelude::*;

verus! {

/// A step of staging an object or committing a data transaction.
#[derive(Debug, Clone, Copy, PartialEq, Eq, Structural)]
pub enum DataRuntimeStep {
    BeforeObjectPut,
    AfterObjectPut,
    BeforeObjectVerification,
    AfterObjectVerification,
    BeforeCommit,
    AfterCommit,
}

/// One engine and one object tier owned together.
pub struct DataRuntime<E, O> {
    engine: E,
    objects: O,
}

/// A non-owning view over the same engine and object tier.
pub struct DataRuntimeRef<'a, E, O> {
    engine: &'a E,
    objects: &'a O,
}

impl<E, O> DataRuntime<E, O> {
    /// The engine held.
    pub closed spec fn engine_spec(&self) -> E {
        self.engine
    }

    /// The object tier held.
    pub closed spec fn objects_spec(&self) -> O {
        self.objects
    }

    /// Owns `engine` and `objects` together.
    pub fn new(engine: E, objects: O) -> (r: Self)
        ensures
            r.engine_spec() == engine,
            r.objects_spec() == objects,
    {
        DataRuntime { engine, objects }
    }

    /// The engine.
    pub fn engine(&self) -> (e: &E)
        ensures
            *e == self.engine_spec(),
    {
        &self.engine
    }

    /// The object tier.
    pub fn objects(&self) -> (o: &O)
        ensures
            *o == self.objects_spec(),
    {
        &self.objects
    }

    /// Gives back the engine and the object tier.
    pub fn into_parts(self) -> (parts: (E, O))
        ensures
            parts.0 == self.engine_spec(),
            parts.1 == self.objects_spec(),
    {
        (self.engine, self.objects)
    }
}

impl<'a, E, O> DataRuntimeRef<'a, E, O> {
    /// The engine viewed.
    pub closed spec fn engine_spec(&self) -> E {
        *self.engine
    }

    /// The object tier viewed.
    pub closed spec fn objects_spec(&self) -> O {
        *self.objects
    }

    /// A view over `engine` and `objects`.
    pub fn new(engine: &'a E, objects: &'a O) -> (r: Self)
        ensures
            r.engine_spec() == *engine,
            r.objects_spec() == *objects,
    {
        DataRuntimeRef { engine, objects }
    }

    /// The engine.
    pub fn engine(&self) -> (e: &E)
        ensures
            *e == self.engine_spec(),
    {
        self.engine
    }

    /// The object tier.
    pub fn objects(&self) -> (o: &O)
        ensures
            *o == self.objects_spec(),
    {
        self.objects
    }
}

/// The object tier's evidence confirms `r`: the object is stored, has the
/// referenced length, and the reference carries the tier's receipt backend,
/// key and version.
pub open spec fn reference_confirmed(contents: Map<Seq<u8>, Seq<u8>>, r: ObjectReference) -> bool {
    &&& contents.contains_key(utf8(r.sha256@))
    &&& r.length == contents[utf8(r.sha256@)].len()
    &&& r.receipt.backend@ == "memory"@
    &&& r.receipt.key@ == canonical_object_key(r.sha256@)
    &&& r.receipt.version is None
}

/// Checks every object reference a commit carries against the object tier
/// before the commit becomes visible: a missing object, another length, or
/// a receipt that is not the tier's own refuses the commit.
pub fn confirm_object_references(objects: &MemoryObjectStore, references: &Vec<ObjectReference>) -> (r: Result<()>)
    requires
        objects.wf(),
    ensures
        r is Ok <==> forall|i: int| 0 <= i < references@.len() ==> reference_confirmed(objects.contents(), #[trigger] references@[i]),
        r matches Err(e) ==> e is ObjectMissing || e is ObjectLengthMismatch || e is Object,
{
    let mut i: usize = 0;
    while i < references.len()
        invariant
            objects.wf(),
            i <= references@.len(),
            forall|j: int| 0 <= j < i ==> reference_confirmed(objects.contents(), #[trigger] references@[j]),
        decreases references@.len() - i,
    {
        let reference = &references[i];
        let verified = objects.verify(reference.sha256.as_str())?;
        if verified.length != reference.length {
            return Err(Error::ObjectLengthMismatch { expected: reference.length, actual: verified.length });
        }
        let same_version = match (&verified.receipt.version, &reference.receipt.version) {
            (None, None) => true,
            (Some(a), Some(b)) => *a == *b,
            _ => false,
        };
        if verified.receipt.backend != reference.receipt.backend || verified.receipt.key != reference.receipt.key || !same_version {
            return Err(Error::Object(text("committed object receipt differs from verified backend evidence")));
        }
        i = i + 1;
    }
    Ok(())
}

} // verus!
