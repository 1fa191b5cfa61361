//! Schema identities. Every stored key and value belongs to a schema with
//! a name and a version; a value is written together with the identity of
//! its schema, so that a reader with a newer schema can tell.

use vstd::prelude::*;

verus! {

/// The name and version of a schema.
pub struct SchemaId {
    pub name: String,
    pub version: u32,
}

impl View for SchemaId {
    type V = (Seq<char>, u32);

    open spec fn view(&self) -> (Seq<char>, u32) {
        (self.name@, self.version)
    }
}

/// The schema of the values of a store, as plain values.
pub struct ValueSchemaView {
    pub id: Seq<char>,
    pub schema_version: u32,
    pub migrates_from: Seq<(Seq<char>, u32)>,
}

/// The schema of the values of a store: its current identity, and the
/// older identities whose values it can bring up to date.
pub struct ValueSchema {
    pub id: String,
    pub schema_version: u32,
    pub migrates_from: Vec<SchemaId>,
}

impl View for ValueSchema {
    type V = ValueSchemaView;

    open spec fn view(&self) -> ValueSchemaView {
        ValueSchemaView {
            id: self.id@,
            schema_version: self.schema_version,
            migrates_from: Seq::new(self.migrates_from@.len(), |i: int| self.migrates_from@[i]@),
        }
    }
}

impl ValueSchema {
    /// Whether values written under the given identity can be brought up
    /// to date.
    pub fn can_migrate_from(&self, name: &str, version: u32) -> (r: bool)
        ensures
            r == self@.migrates_from.contains((name@, version)),
    {
        let wanted = name.to_owned();
        let mut i: usize = 0;
        while i < self.migrates_from.len()
            invariant
                i <= self.migrates_from@.len(),
                wanted@ == name@,
                forall|k: int| 0 <= k < i ==> self@.migrates_from[k] != (name@, version),
            decreases self.migrates_from@.len() - i,
        {
            if self.migrates_from[i].version == version && self.migrates_from[i].name == wanted {
                assert(self@.migrates_from[i as int] == (name@, version));
                return true;
            }
            i = i + 1;
        }
        false
    }
}

} // verus!
