//! What is kept about each namespace: which table holds its data, and the
//! schema identity of its keys.

use vstd::prelude::*;

verus! {

/// Identifies one namespace: a module, in one of the two storage areas.
pub struct KvsTarget {
    pub module_name: String,
    pub is_transient: bool,
}

/// What is known about a namespace.
pub struct KvsMetadata {
    /// The generated name of the namespace's table.
    pub table_name: String,
    /// The interned id of the schema name of the keys.
    pub key_id: u32,
    /// The schema version of the keys.
    pub key_version: u32,
    /// Whether a live module has claimed the namespace during this start.
    pub is_used: bool,
}

/// One row of a metadata table, as it is kept in the database.
pub struct PersistedRow {
    pub module_name: String,
    pub table_name: String,
    /// The format version of the row itself.
    pub kvs_schema_version: u32,
    pub key_id: u32,
    pub key_version: u32,
}

/// A metadata row as plain values.
pub struct RowView {
    pub module_name: Seq<char>,
    pub table_name: Seq<char>,
    pub kvs_schema_version: u32,
    pub key_id: u32,
    pub key_version: u32,
}

impl View for PersistedRow {
    type V = RowView;

    open spec fn view(&self) -> RowView {
        RowView {
            module_name: self.module_name@,
            table_name: self.table_name@,
            kvs_schema_version: self.kvs_schema_version,
            key_id: self.key_id,
            key_version: self.key_version,
        }
    }
}

/// A namespace and what is known about it, as plain values.
pub struct EntryView {
    pub module_name: Seq<char>,
    pub is_transient: bool,
    pub table_name: Seq<char>,
    pub key_id: u32,
    pub key_version: u32,
    pub is_used: bool,
}

impl EntryView {
    /// Whether this is the entry of the given namespace.
    pub open spec fn is_for(self, module_name: Seq<char>, is_transient: bool) -> bool {
        self.module_name == module_name && self.is_transient == is_transient
    }

    /// The same entry, claimed.
    pub open spec fn claimed(self) -> EntryView {
        EntryView {
            module_name: self.module_name,
            is_transient: self.is_transient,
            table_name: self.table_name,
            key_id: self.key_id,
            key_version: self.key_version,
            is_used: true,
        }
    }

    /// Whether the entry is a transient namespace that no live module
    /// claimed.
    pub open spec fn is_abandoned(self) -> bool {
        self.is_transient && !self.is_used
    }
}

/// Whether `entries` holds the given namespace.
pub open spec fn has_target(entries: Seq<EntryView>, module_name: Seq<char>, is_transient: bool) -> bool {
    exists|i: int| 0 <= i < entries.len() && (#[trigger] entries[i]).is_for(module_name, is_transient)
}

/// A position at which `entries` holds the given namespace.
pub open spec fn index_of_target(
    entries: Seq<EntryView>,
    module_name: Seq<char>,
    is_transient: bool,
) -> int {
    choose|i: int| 0 <= i < entries.len() && (#[trigger] entries[i]).is_for(module_name, is_transient)
}

/// Whether no namespace has two entries.
pub open spec fn targets_distinct(entries: Seq<EntryView>) -> bool {
    forall|i: int, j: int|
        0 <= i < j < entries.len() ==> !(#[trigger] entries[i]).is_for(
            (#[trigger] entries[j]).module_name,
            entries[j].is_transient,
        )
}

/// Whether no two entries share a table name.
pub open spec fn table_names_distinct(entries: Seq<EntryView>) -> bool {
    forall|i: int, j: int|
        0 <= i < j < entries.len() ==> (#[trigger] entries[i]).table_name != (
        #[trigger] entries[j]).table_name
}

/// `entries` with `entry` put in: in place of the entry of the same
/// namespace if there is one, else at the end.
pub open spec fn put_entry(entries: Seq<EntryView>, entry: EntryView) -> Seq<EntryView> {
    if has_target(entries, entry.module_name, entry.is_transient) {
        entries.update(index_of_target(entries, entry.module_name, entry.is_transient), entry)
    } else {
        entries.push(entry)
    }
}

struct MetadataEntry {
    target: KvsTarget,
    metadata: KvsMetadata,
}

impl MetadataEntry {
    spec fn plain(self) -> EntryView {
        EntryView {
            module_name: self.target.module_name@,
            is_transient: self.target.is_transient,
            table_name: self.metadata.table_name@,
            key_id: self.metadata.key_id,
            key_version: self.metadata.key_version,
            is_used: self.metadata.is_used,
        }
    }
}

/// The namespaces by target, in the order in which they were first put in.
pub struct MetadataMap {
    entries: Vec<MetadataEntry>,
}

impl View for MetadataMap {
    type V = Seq<EntryView>;

    closed spec fn view(&self) -> Seq<EntryView> {
        Seq::new(self.entries@.len(), |i: int| self.entries@[i].plain())
    }
}

impl MetadataMap {
    /// No namespace has two entries.
    pub open spec fn wf(&self) -> bool {
        targets_distinct(self@)
    }

    /// A map without entries.
    pub fn new() -> (r: Self)
        ensures
            r@ == Seq::<EntryView>::empty(),
            r.wf(),
    {
        let r = MetadataMap { entries: Vec::new() };
        assert(r@ =~= Seq::<EntryView>::empty());
        r
    }

    /// The number of namespaces.
    pub fn len(&self) -> (n: usize)
        ensures
            n == self@.len(),
    {
        self.entries.len()
    }

    /// Where the entry of a namespace stands, if the map holds one.
    pub fn position(&self, module_name: &str, is_transient: bool) -> (r: Option<usize>)
        requires
            self.wf(),
        ensures
            r is Some == has_target(self@, module_name@, is_transient),
            r matches Some(i) ==> i < self@.len() && i == index_of_target(
                self@,
                module_name@,
                is_transient,
            ) && self@[i as int].is_for(module_name@, is_transient),
    {
        let wanted = module_name.to_owned();
        let mut i: usize = 0;
        while i < self.entries.len()
            invariant
                i <= self.entries@.len(),
                wanted@ == module_name@,
                self.wf(),
                forall|k: int| 0 <= k < i ==> !(#[trigger] self@[k]).is_for(module_name@, is_transient),
            decreases self.entries@.len() - i,
        {
            if self.entries[i].target.is_transient == is_transient
                && self.entries[i].target.module_name == wanted {
                assert(self@[i as int].is_for(module_name@, is_transient));
                let ghost chosen = index_of_target(self@, module_name@, is_transient);
                assert(self@[chosen].is_for(module_name@, is_transient));
                assert(chosen == i) by {
                    if chosen < i {
                        assert(!self@[chosen].is_for(self@[i as int].module_name, self@[i as int].is_transient));
                    }
                    if chosen > i {
                        assert(!self@[i as int].is_for(self@[chosen].module_name, self@[chosen].is_transient));
                    }
                }
                return Some(i);
            }
            i = i + 1;
        }
        None
    }

    /// The metadata of a namespace, if the map holds it.
    pub fn get(&self, module_name: &str, is_transient: bool) -> (r: Option<&KvsMetadata>)
        requires
            self.wf(),
        ensures
            r is Some == has_target(self@, module_name@, is_transient),
            r matches Some(m) ==> {
                let e = self@[index_of_target(self@, module_name@, is_transient)];
                &&& m.table_name@ == e.table_name
                &&& m.key_id == e.key_id
                &&& m.key_version == e.key_version
                &&& m.is_used == e.is_used
            },
    {
        match self.position(module_name, is_transient) {
            Some(i) => {
                assert(self@[i as int] == self.entries@[i as int].plain());
                Some(&self.entries[i].metadata)
            },
            None => None,
        }
    }

    /// The namespace at a position.
    pub fn target_at(&self, index: usize) -> (r: &KvsTarget)
        requires
            index < self@.len(),
        ensures
            r.module_name@ == self@[index as int].module_name,
            r.is_transient == self@[index as int].is_transient,
    {
        &self.entries[index].target
    }

    /// The metadata at a position.
    pub fn metadata_at(&self, index: usize) -> (r: &KvsMetadata)
        requires
            index < self@.len(),
        ensures
            r.table_name@ == self@[index as int].table_name,
            r.key_id == self@[index as int].key_id,
            r.key_version == self@[index as int].key_version,
            r.is_used == self@[index as int].is_used,
    {
        &self.entries[index].metadata
    }

    /// Puts a namespace in, in place of what the map held for it.
    pub fn insert(&mut self, target: KvsTarget, metadata: KvsMetadata)
        requires
            old(self).wf(),
        ensures
            final(self).wf(),
            final(self)@ == put_entry(
                old(self)@,
                EntryView {
                    module_name: target.module_name@,
                    is_transient: target.is_transient,
                    table_name: metadata.table_name@,
                    key_id: metadata.key_id,
                    key_version: metadata.key_version,
                    is_used: metadata.is_used,
                },
            ),
    {
        let ghost before = self@;
        let entry = MetadataEntry { target, metadata };
        let ghost plain = entry.plain();
        match self.position(entry.target.module_name.as_str(), entry.target.is_transient) {
            Some(i) => {
                self.entries.set(i, entry);
                assert(self@ =~= before.update(i as int, plain));
                assert forall|a: int, b: int| 0 <= a < b < self@.len() implies !(
                #[trigger] self@[a]).is_for((#[trigger] self@[b]).module_name, self@[b].is_transient) by {
                    assert(!before[a].is_for(before[b].module_name, before[b].is_transient));
                }
            },
            None => {
                self.entries.push(entry);
                assert(self@ =~= before.push(plain));
                assert forall|a: int, b: int| 0 <= a < b < self@.len() implies !(
                #[trigger] self@[a]).is_for((#[trigger] self@[b]).module_name, self@[b].is_transient) by {
                    if b < before.len() {
                        assert(!before[a].is_for(before[b].module_name, before[b].is_transient));
                    } else {
                        assert(before[a].is_for(plain.module_name, plain.is_transient) ==> has_target(
                            before,
                            plain.module_name,
                            plain.is_transient,
                        ));
                    }
                }
            },
        }
    }

    /// Marks the namespace at a position as claimed.
    pub fn mark_used(&mut self, index: usize)
        requires
            old(self).wf(),
            index < old(self)@.len(),
        ensures
            final(self).wf(),
            final(self)@ == old(self)@.update(index as int, old(self)@[index as int].claimed()),
    {
        let ghost before = self@;
        let old_entry = self.entries.remove(index);
        let entry = MetadataEntry {
            target: old_entry.target,
            metadata: KvsMetadata {
                table_name: old_entry.metadata.table_name,
                key_id: old_entry.metadata.key_id,
                key_version: old_entry.metadata.key_version,
                is_used: true,
            },
        };
        assert(entry.plain() == before[index as int].claimed());
        self.entries.insert(index, entry);
        assert(self@ =~= before.update(index as int, before[index as int].claimed()));
        assert forall|a: int, b: int| 0 <= a < b < self@.len() implies !(#[trigger] self@[a]).is_for(
            (#[trigger] self@[b]).module_name,
            self@[b].is_transient,
        ) by {
            assert(!before[a].is_for(before[b].module_name, before[b].is_transient));
        }
    }
}

} // verus!
