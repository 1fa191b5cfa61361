//! The store of one namespace: a cache in front of the namespace's table.
//!
//! The store never talks to the database itself. A read that the cache
//! cannot answer and every write come back as a command; the caller runs
//! the command and hands it back with what came of it. All operations on
//! one key are expected to run one after the other, each from its command
//! to its return, under the lock of that key.

use crate::cache::{cached, inserted, keys_distinct, lemma_inserted_distinct, touched, LruCache};
use crate::interner::{after_lookup, id_of, StringInterner};
use crate::kvs::init::{after_init_module, step_view, CreateTable, DeclView, InitError, InitKvsEvent, InitKvsLate};
use crate::kvs::metadata::{has_target, index_of_target};
use crate::kvs::queries::{
    cell_view, delete_sql, load_decision, load_sql, loaded_view, store_sql, DeleteCommand, KvsError,
    KvsStoreQueries, LoadCommand, LoadedValue, LoadedView, StoreCommand, StoredCell,
};
use crate::kvs::schema::{SchemaId, ValueSchema, ValueSchemaView};
use crate::kvs::{area_prefix, area_prefix_str, KvsType};
use crate::text::copy_bytes;
use std::marker::PhantomData;
use vstd::prelude::*;

verus! {

/// A cached value, which may be a known absence, as plain values.
pub open spec fn value_view(value: Option<Vec<u8>>) -> Option<Seq<u8>> {
    match value {
        Some(bytes) => Some(bytes@),
        None => None,
    }
}

/// The slots of a cache as plain values.
pub open spec fn plain_slots(slots: Seq<(Seq<u8>, Option<Vec<u8>>)>) -> Seq<(Seq<u8>, Option<Seq<u8>>)> {
    Seq::new(slots.len(), |i: int| (slots[i].0, value_view(slots[i].1)))
}

/// What a store needs at run time once its table is known.
pub struct BaseKvsStoreInfo {
    value_id: u32,
    queries: KvsStoreQueries,
}

impl BaseKvsStoreInfo {
    /// The interned id of the schema name of the values.
    pub closed spec fn spec_value_id(&self) -> u32 {
        self.value_id
    }

    /// The name of the table, with the prefix of its area.
    pub closed spec fn bound_to(&self, table: Seq<char>) -> bool {
        &&& self.queries.store_query@ == store_sql(table)
        &&& self.queries.delete_query@ == delete_sql(table)
        &&& self.queries.load_query@ == load_sql(table)
    }

    /// Binds a store to the table that the startup pass gave its
    /// namespace, and interns the schema name of its values.
    pub fn new(
        module: &str,
        is_transient: bool,
        late: &InitKvsLate,
        value_id: &str,
        interner: &mut StringInterner,
    ) -> (r: Self)
        requires
            late.wf(),
            old(interner).wf(),
            has_target(late@, module@, is_transient),
            id_of(old(interner)@, value_id@) is Some,
        ensures
            final(interner).wf(),
            final(interner)@ == after_lookup(old(interner)@, value_id@),
            Some(r.spec_value_id()) == id_of(old(interner)@, value_id@),
            r.bound_to(
                area_prefix(is_transient) + late@[index_of_target(
                    late@,
                    module@,
                    is_transient,
                )].table_name,
            ),
    {
        let metadata = late.metadata().get(module, is_transient).unwrap();
        let id = interner.lookup_name(value_id).unwrap();
        let mut table = area_prefix_str(is_transient).to_owned();
        table.append(metadata.table_name.as_str());
        BaseKvsStoreInfo { value_id: id, queries: KvsStoreQueries::new(table.as_str()) }
    }

    /// The interned id of the schema name of the values.
    pub fn value_id(&self) -> (r: u32)
        ensures
            r == self.spec_value_id(),
    {
        self.value_id
    }

    /// The statements of the namespace.
    pub fn queries(&self) -> (r: &KvsStoreQueries)
        ensures
            forall|table: Seq<char>|
                self.bound_to(table) ==> r.store_query@ == store_sql(table) && r.delete_query@
                    == delete_sql(table) && r.load_query@ == load_sql(table),
    {
        &self.queries
    }
}

/// What a read of the store asks of its caller.
pub enum GetStep {
    /// The cache knew: the value, or that the key has none.
    Hit(Option<Vec<u8>>),
    /// The cache did not know: read the row with this command and hand
    /// both to `loaded`.
    Load(LoadCommand),
}

/// The store of one module's namespace. `T` tells whether the namespace is
/// persistent or transient.
pub struct BaseKvsStore<T: KvsType> {
    module_name: String,
    key_schema: SchemaId,
    value_schema: ValueSchema,
    data: Option<BaseKvsStoreInfo>,
    cache: LruCache<Option<Vec<u8>>>,
    phantom: PhantomData<T>,
}

impl<T: KvsType> BaseKvsStore<T> {
    /// The name of the module that owns the store.
    pub closed spec fn spec_module_name(&self) -> Seq<char> {
        self.module_name@
    }

    /// The schema identity of the keys.
    pub closed spec fn spec_key_schema(&self) -> (Seq<char>, u32) {
        self.key_schema@
    }

    /// The schema of the values.
    pub closed spec fn spec_value_schema(&self) -> ValueSchemaView {
        self.value_schema@
    }

    /// Whether the store has been bound to its table.
    pub closed spec fn is_initialized(&self) -> bool {
        self.data is Some
    }

    /// The interned id of the schema name of the values, once bound.
    pub closed spec fn spec_value_id(&self) -> u32 {
        self.data->0.spec_value_id()
    }

    /// Whether the store is bound to the table of the given name.
    pub closed spec fn bound_to(&self, table: Seq<char>) -> bool {
        self.data is Some && self.data->0.bound_to(table)
    }

    /// The slots of the cache, most recently used first.
    pub closed spec fn slots(&self) -> Seq<(Seq<u8>, Option<Vec<u8>>)> {
        self.cache@
    }

    /// The capacity of the cache.
    pub closed spec fn spec_capacity(&self) -> nat {
        self.cache.spec_capacity()
    }

    /// The cache is in order.
    pub closed spec fn wf(&self) -> bool {
        self.cache.wf()
    }

    /// Everything about the store but its cache is the same in `other`.
    pub open spec fn same_binding(&self, other: &Self) -> bool {
        &&& self.spec_module_name() == other.spec_module_name()
        &&& self.spec_key_schema() == other.spec_key_schema()
        &&& self.spec_value_schema() == other.spec_value_schema()
        &&& self.is_initialized() == other.is_initialized()
        &&& self.is_initialized() ==> self.spec_value_id() == other.spec_value_id()
        &&& forall|table: Seq<char>| self.bound_to(table) == other.bound_to(table)
        &&& self.spec_capacity() == other.spec_capacity()
    }

    /// A store for the namespace of a module, not yet bound to a table,
    /// with an empty cache for 1024 values.
    pub fn new(module_name: String, key_schema: SchemaId, value_schema: ValueSchema) -> (r: Self)
        ensures
            r.wf(),
            !r.is_initialized(),
            r.spec_module_name() == module_name@,
            r.spec_key_schema() == key_schema@,
            r.spec_value_schema() == value_schema@,
            r.slots() == Seq::<(Seq<u8>, Option<Vec<u8>>)>::empty(),
            r.spec_capacity() == 1024,
    {
        Self::with_capacity(module_name, key_schema, value_schema, 1024)
    }

    /// A store like that of `new`, with a cache of the given capacity.
    pub fn with_capacity(
        module_name: String,
        key_schema: SchemaId,
        value_schema: ValueSchema,
        capacity: usize,
    ) -> (r: Self)
        ensures
            r.wf(),
            !r.is_initialized(),
            r.spec_module_name() == module_name@,
            r.spec_key_schema() == key_schema@,
            r.spec_value_schema() == value_schema@,
            r.slots() == Seq::<(Seq<u8>, Option<Vec<u8>>)>::empty(),
            r.spec_capacity() == capacity,
    {
        BaseKvsStore {
            module_name,
            key_schema,
            value_schema,
            data: None,
            cache: LruCache::new(capacity),
            phantom: PhantomData,
        }
    }

    /// Whether the store has been bound to its table.
    pub fn initialized(&self) -> (r: bool)
        ensures
            r == self.is_initialized(),
    {
        self.data.is_some()
    }

    /// The name of the module that owns the store.
    pub fn module_name(&self) -> (r: &str)
        ensures
            r@ == self.spec_module_name(),
    {
        self.module_name.as_str()
    }

    /// The schema of the values.
    pub fn value_schema(&self) -> (r: &ValueSchema)
        ensures
            r@ == self.spec_value_schema(),
    {
        &self.value_schema
    }

    /// Interns the schema names of the keys and of the values.
    pub fn init_interner(&self, interner: &mut StringInterner) -> (r: Result<(), InitError>)
        requires
            old(interner).wf(),
        ensures
            final(interner).wf(),
            final(interner)@ == after_lookup(
                after_lookup(old(interner)@, self.spec_key_schema().0),
                self.spec_value_schema().id,
            ),
            r is Ok <==> id_of(old(interner)@, self.spec_key_schema().0) is Some && id_of(
                after_lookup(old(interner)@, self.spec_key_schema().0),
                self.spec_value_schema().id,
            ) is Some,
            r matches Err(e) ==> e == InitError::InternerFull,
    {
        let first = interner.lookup_name(self.key_schema.name.as_str());
        let second = interner.lookup_name(self.value_schema.id.as_str());
        if first.is_some() && second.is_some() {
            Ok(())
        } else {
            Err(InitError::InternerFull)
        }
    }

    /// Declares the namespace of the store to the startup pass.
    pub fn init_kvs(&self, interner: &mut StringInterner, ev: &mut InitKvsEvent) -> (r: Result<
        Option<CreateTable>,
        InitError,
    >)
        requires
            old(ev).wf(),
            old(interner).wf(),
        ensures
            final(ev).wf(),
            final(interner).wf(),
            ({
                let (st, names, res) = after_init_module(
                    old(ev)@,
                    old(interner)@,
                    DeclView {
                        module_name: self.spec_module_name(),
                        key_id: self.spec_key_schema().0,
                        key_version: self.spec_key_schema().1,
                        is_transient: T::IS_TRANSIENT,
                    },
                );
                &&& final(ev)@ == st
                &&& final(interner)@ == names
                &&& step_view(r) == res
            }),
    {
        ev.init_module(
            interner,
            self.key_schema.name.as_str(),
            self.key_schema.version,
            self.module_name.as_str(),
            T::IS_TRANSIENT,
        )
    }

    /// Binds the store to the table that the startup pass gave its
    /// namespace.
    pub fn init_kvs_late(&mut self, interner: &mut StringInterner, ev: &InitKvsLate)
        requires
            old(self).wf(),
            ev.wf(),
            old(interner).wf(),
            has_target(ev@, old(self).spec_module_name(), T::IS_TRANSIENT),
            id_of(old(interner)@, old(self).spec_value_schema().id) is Some,
        ensures
            final(self).wf(),
            final(interner).wf(),
            final(interner)@ == after_lookup(old(interner)@, old(self).spec_value_schema().id),
            final(self).is_initialized(),
            Some(final(self).spec_value_id()) == id_of(old(interner)@, old(self).spec_value_schema().id),
            final(self).bound_to(
                area_prefix(T::IS_TRANSIENT) + ev@[index_of_target(
                    ev@,
                    old(self).spec_module_name(),
                    T::IS_TRANSIENT,
                )].table_name,
            ),
            final(self).spec_module_name() == old(self).spec_module_name(),
            final(self).spec_key_schema() == old(self).spec_key_schema(),
            final(self).spec_value_schema() == old(self).spec_value_schema(),
            final(self).slots() == old(self).slots(),
            final(self).spec_capacity() == old(self).spec_capacity(),
    {
        let info = BaseKvsStoreInfo::new(
            self.module_name.as_str(),
            T::IS_TRANSIENT,
            ev,
            self.value_schema.id.as_str(),
            interner,
        );
        self.data = Some(info);
    }

    /// Starts a read of `key`. A hit counts as a use of the cached value.
    pub fn get(&mut self, key: &[u8]) -> (r: GetStep)
        requires
            old(self).wf(),
            old(self).is_initialized(),
        ensures
            final(self).wf(),
            final(self).same_binding(old(self)),
            final(self).slots() == touched(old(self).slots(), key@),
            match r {
                GetStep::Hit(value) => cached(plain_slots(old(self).slots()), key@) == Some(
                    value_view(value),
                ),
                GetStep::Load(command) => cached(plain_slots(old(self).slots()), key@) is None
                    && command.key@ == key@ && forall|table: Seq<char>|
                    old(self).bound_to(table) ==> command.sql@ == load_sql(table),
            },
    {
        proof {
            lemma_plain_slots(self.cache@, key@);
        }
        match self.cache.get(key) {
            Some(Some(bytes)) => GetStep::Hit(Some(copy_bytes(bytes.as_slice()))),
            Some(None) => GetStep::Hit(None),
            None => GetStep::Load(self.data.as_ref().unwrap().queries().load_command(key)),
        }
    }

    /// Takes back the command of `get` with the row that it found. A
    /// value under the current schema, and a key without a value, are
    /// cached and returned. A value under an older schema that can be
    /// brought up to date is returned for that, and nothing is cached yet:
    /// `migrated` takes the result. On an error nothing is cached.
    pub fn loaded(&mut self, interner: &StringInterner, command: LoadCommand, row: Option<StoredCell>) -> (r:
        Result<LoadedValue, KvsError>)
        requires
            old(self).wf(),
        ensures
            final(self).wf(),
            final(self).same_binding(old(self)),
            loaded_view(r) == load_decision(
                cell_view(row),
                interner@,
                old(self).spec_value_schema(),
                !T::IS_TRANSIENT,
            ),
            plain_slots(final(self).slots()) == match loaded_view(r) {
                Ok(LoadedView::Absent) => inserted(
                    plain_slots(old(self).slots()),
                    command.key@,
                    None,
                    old(self).spec_capacity(),
                ),
                Ok(LoadedView::Current(bytes)) => inserted(
                    plain_slots(old(self).slots()),
                    command.key@,
                    Some(bytes),
                    old(self).spec_capacity(),
                ),
                _ => plain_slots(old(self).slots()),
            },
    {
        let decided = KvsStoreQueries::load_value(row, interner, &self.value_schema, !T::IS_TRANSIENT);
        match &decided {
            Ok(LoadedValue::Absent) => {
                proof {
                    lemma_plain_inserted(self.cache@, command.key@, None, self.cache.spec_capacity());
                }
                self.cache.insert(command.key, None);
            },
            Ok(LoadedValue::Current(bytes)) => {
                let copy = copy_bytes(bytes.as_slice());
                proof {
                    lemma_plain_inserted(self.cache@, command.key@, Some(copy), self.cache.spec_capacity());
                }
                self.cache.insert(command.key, Some(copy));
            },
            _ => {},
        }
        decided
    }

    /// Takes the value that the value type made of an older one, in its
    /// current serialized form, and caches it for `key`.
    pub fn migrated(&mut self, key: &[u8], value: Vec<u8>)
        requires
            old(self).wf(),
        ensures
            final(self).wf(),
            final(self).same_binding(old(self)),
            plain_slots(final(self).slots()) == inserted(
                plain_slots(old(self).slots()),
                key@,
                Some(value@),
                old(self).spec_capacity(),
            ),
    {
        proof {
            lemma_plain_inserted(self.cache@, key@, Some(value), self.cache.spec_capacity());
        }
        self.cache.insert(copy_bytes(key), Some(value));
    }

    /// Starts a write of `value` for `key`: the command that replaces the
    /// row of the key, with the current schema identity of the values. The
    /// cache is left alone until `stored` gets the command back.
    pub fn set(&self, key: &[u8], value: &[u8]) -> (r: StoreCommand)
        requires
            self.is_initialized(),
        ensures
            r.key@ == key@,
            r.value@ == value@,
            r.value_schema_id == self.spec_value_id(),
            r.value_schema_ver == self.spec_value_schema().schema_version,
            forall|table: Seq<char>| self.bound_to(table) ==> r.sql@ == store_sql(table),
    {
        let info = self.data.as_ref().unwrap();
        info.queries().store_value(key, value, info.value_id(), self.value_schema.schema_version)
    }

    /// Takes back the command of `set` once it has been run, and caches
    /// the value that was written: unless the cache holds nothing at all,
    /// the next read of the key is answered from it, with this value.
    pub fn stored(&mut self, command: StoreCommand)
        requires
            old(self).wf(),
        ensures
            final(self).wf(),
            final(self).same_binding(old(self)),
            plain_slots(final(self).slots()) == inserted(
                plain_slots(old(self).slots()),
                command.key@,
                Some(command.value@),
                old(self).spec_capacity(),
            ),
            old(self).spec_capacity() > 0 ==> cached(plain_slots(final(self).slots()), command.key@)
                == Some(Some(command.value@)),
    {
        proof {
            lemma_plain_inserted(
                self.cache@,
                command.key@,
                Some(command.value),
                self.cache.spec_capacity(),
            );
            lemma_plain_slots(self.cache@, command.key@);
            lemma_inserted_distinct(
                plain_slots(self.cache@),
                command.key@,
                Some(command.value@),
                self.cache.spec_capacity(),
            );
        }
        self.cache.insert(command.key, Some(command.value));
    }

    /// Starts the removal of the value of `key`: the command that deletes
    /// its row.
    pub fn remove(&self, key: &[u8]) -> (r: DeleteCommand)
        requires
            self.is_initialized(),
        ensures
            r.key@ == key@,
            forall|table: Seq<char>| self.bound_to(table) ==> r.sql@ == delete_sql(table),
    {
        self.data.as_ref().unwrap().queries().delete_value(key)
    }

    /// Takes back the command of `remove` once it has been run, and
    /// caches that the key has no value: unless the cache holds nothing at
    /// all, the next read of the key is answered from it, with no value.
    pub fn removed(&mut self, command: DeleteCommand)
        requires
            old(self).wf(),
        ensures
            final(self).wf(),
            final(self).same_binding(old(self)),
            plain_slots(final(self).slots()) == inserted(
                plain_slots(old(self).slots()),
                command.key@,
                None,
                old(self).spec_capacity(),
            ),
            old(self).spec_capacity() > 0 ==> cached(plain_slots(final(self).slots()), command.key@)
                == Some(None::<Seq<u8>>),
    {
        proof {
            lemma_plain_inserted(self.cache@, command.key@, None, self.cache.spec_capacity());
            lemma_plain_slots(self.cache@, command.key@);
            lemma_inserted_distinct(
                plain_slots(self.cache@),
                command.key@,
                None::<Seq<u8>>,
                self.cache.spec_capacity(),
            );
        }
        self.cache.insert(command.key, None);
    }
}

/// Looking at the slots as plain values changes neither which keys they
/// have nor where.
pub proof fn lemma_plain_slots(slots: Seq<(Seq<u8>, Option<Vec<u8>>)>, key: Seq<u8>)
    requires
        keys_distinct(slots),
    ensures
        keys_distinct(plain_slots(slots)),
        crate::cache::has_key(plain_slots(slots), key) == crate::cache::has_key(slots, key),
        crate::cache::has_key(slots, key) ==> crate::cache::index_of_key(plain_slots(slots), key)
            == crate::cache::index_of_key(slots, key),
        cached(plain_slots(slots), key) == match cached(slots, key) {
            Some(v) => Some(value_view(v)),
            None => None,
        },
        plain_slots(touched(slots, key)) == touched(plain_slots(slots), key),
{
    let plain = plain_slots(slots);
    assert forall|i: int, j: int| 0 <= i < j < plain.len() implies (#[trigger] plain[i]).0 != (
    #[trigger] plain[j]).0 by {
        assert(slots[i].0 != slots[j].0);
    }
    if crate::cache::has_key(slots, key) {
        let at = crate::cache::index_of_key(slots, key);
        assert(plain[at].0 == key);
        let p = crate::cache::index_of_key(plain, key);
        if p != at {
            if p < at {
                assert(plain[p].0 != plain[at].0);
            } else {
                assert(plain[at].0 != plain[p].0);
            }
        }
        assert(plain_slots(touched(slots, key)) =~= touched(plain, key));
    } else {
        if crate::cache::has_key(plain, key) {
            let p = crate::cache::index_of_key(plain, key);
            assert(slots[p].0 == key);
        }
    }
}

/// Storing a value and then looking at the slots as plain values gives
/// what storing the plain value in the plain slots gives.
pub proof fn lemma_plain_inserted(
    slots: Seq<(Seq<u8>, Option<Vec<u8>>)>,
    key: Seq<u8>,
    value: Option<Vec<u8>>,
    capacity: nat,
)
    requires
        keys_distinct(slots),
    ensures
        plain_slots(inserted(slots, key, value, capacity)) == inserted(
            plain_slots(slots),
            key,
            value_view(value),
            capacity,
        ),
{
    lemma_plain_slots(slots, key);
    assert(plain_slots(crate::cache::without_key(slots, key)) =~= crate::cache::without_key(
        plain_slots(slots),
        key,
    ));
    assert(plain_slots(inserted(slots, key, value, capacity)) =~= inserted(
        plain_slots(slots),
        key,
        value_view(value),
        capacity,
    ));
}

} // verus!
