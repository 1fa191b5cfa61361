//! The startup pass over the namespaces. It loads what both metadata
//! tables hold, takes the declarations of the live modules one by one,
//! allocates a table for each namespace seen for the first time, and at the
//! end gives up the transient namespaces that nobody claimed.
//!
//! The pass decides; it does not touch the database. Each decision that
//! needs the database comes back as a command for the caller to run.

use crate::interner::{after_lookup, id_of, StringInterner};
use crate::kvs::init_laws::{lemma_create_table, lemma_first_free_name, lemma_init_module, lemma_load_row};
use crate::kvs::metadata::{
    has_target, index_of_target, put_entry, targets_distinct, EntryView, KvsMetadata, KvsTarget,
    MetadataMap, PersistedRow, RowView,
};
use crate::kvs::names::{first_free_name, table_name_candidate};
use crate::kvs::{area_prefix, area_prefix_str};
use crate::name_set::NameSet;
use vstd::prelude::*;

verus! {

/// Why the startup pass stopped. Each of these ends the start of the
/// process.
#[derive(Clone, Copy, Debug, PartialEq, Eq, Structural)]
pub enum InitError {
    /// A module name was declared twice in one pass.
    DuplicateModule,
    /// The keys of a known namespace were declared with another schema
    /// name or version than the one kept; no conversion exists.
    UnsupportedKeyMigration,
    /// A kept row names a key schema id that was never interned.
    UnknownKeyId,
    /// A kept row has a format version other than zero.
    FutureSchemaVersion,
    /// Every candidate table name for a module is taken.
    TableNamesExhausted,
    /// A schema name is new and no interned id is left for it.
    InternerFull,
}

/// The text of the error for a module name declared twice.
pub open spec fn duplicate_module_message(module_name: Seq<char>) -> Seq<char> {
    "Duplicate KVS module name found: "@ + module_name
}

impl InitError {
    /// The error as a text; `module_name` is the module whose declaration
    /// was refused.
    pub fn message(&self, module_name: &str) -> (r: String)
        ensures
            r@ == match *self {
                InitError::DuplicateModule => duplicate_module_message(module_name@),
                InitError::UnsupportedKeyMigration => "Conversions for mismatched kvs versions."@,
                InitError::UnknownKeyId => "The database names a key schema that was never interned."@,
                InitError::FutureSchemaVersion => "This database was created with a future version of Sylphie."@,
                InitError::TableNamesExhausted => "No table name is left for the KVS store."@,
                InitError::InternerFull => "No interned string id is left."@,
            },
    {
        match self {
            InitError::DuplicateModule => {
                let mut text = "Duplicate KVS module name found: ".to_owned();
                text.append(module_name);
                text
            },
            InitError::UnsupportedKeyMigration => "Conversions for mismatched kvs versions.".to_owned(),
            InitError::UnknownKeyId => "The database names a key schema that was never interned.".to_owned(),
            InitError::FutureSchemaVersion => "This database was created with a future version of Sylphie.".to_owned(),
            InitError::TableNamesExhausted => "No table name is left for the KVS store.".to_owned(),
            InitError::InternerFull => "No interned string id is left.".to_owned(),
        }
    }
}

/// The state of the pass as plain values.
#[verifier::ext_equal]
pub struct InitView {
    /// The module names declared so far.
    pub found: Set<Seq<char>>,
    /// The table names that are taken.
    pub used: Set<Seq<char>>,
    /// The namespaces known so far.
    pub entries: Seq<EntryView>,
}

/// Whether the table name of every known namespace counts as taken.
pub open spec fn names_tracked(st: InitView) -> bool {
    forall|i: int| 0 <= i < st.entries.len() ==> st.used.contains((#[trigger] st.entries[i]).table_name)
}

/// A table to create together with its metadata row, as plain values.
pub struct CreateTableView {
    pub create_sql: Seq<char>,
    pub insert_sql: Seq<char>,
    pub row: RowView,
}

/// A table to create together with its metadata row. Both statements run
/// in one exclusive transaction, so that neither stays without the other.
pub struct CreateTable {
    /// The statement that creates the data table.
    pub create_sql: String,
    /// The statement that inserts the metadata row; its parameters are the
    /// fields of `row` in their order.
    pub insert_sql: String,
    /// The metadata row.
    pub row: PersistedRow,
}

impl View for CreateTable {
    type V = CreateTableView;

    open spec fn view(&self) -> CreateTableView {
        CreateTableView {
            create_sql: self.create_sql@,
            insert_sql: self.insert_sql@,
            row: self.row@,
        }
    }
}

/// The statement that creates the data table of a namespace.
pub open spec fn create_table_sql(is_transient: bool, table_name: Seq<char>) -> Seq<char> {
    "CREATE TABLE "@ + area_prefix(is_transient) + table_name
        + " (key BLOB PRIMARY KEY, value BLOB NOT NULL, value_schema_id INTEGER NOT NULL, value_schema_ver INTEGER NOT NULL )"@
}

/// The name of the metadata table and, in brackets, its columns.
pub open spec fn info_table_columns() -> Seq<char> {
    "sylphie_db_kvs_info (module"@ + "_path, table_name, kvs_schema_version, key_id, key_version)"@
}

/// The statement that inserts a metadata row.
pub open spec fn insert_row_sql(is_transient: bool) -> Seq<char> {
    "INSERT INTO "@ + area_prefix(is_transient) + info_table_columns() + "VALUES (?, ?, ?, ?, ?)"@
}

/// The statement that reads all metadata rows of an area.
pub open spec fn load_rows_sql(is_transient: bool) -> Seq<char> {
    "SELECT module"@ + "_path, table_name, kvs_schema_version, key_id, key_version FROM "@
        + area_prefix(is_transient) + "sylphie_db_kvs_info"@
}

/// The command that creates the table of a new namespace.
pub open spec fn new_table(
    module_name: Seq<char>,
    table_name: Seq<char>,
    key_id: u32,
    key_version: u32,
    is_transient: bool,
) -> CreateTableView {
    CreateTableView {
        create_sql: create_table_sql(is_transient, table_name),
        insert_sql: insert_row_sql(is_transient),
        row: RowView { module_name, table_name, kvs_schema_version: 0, key_id, key_version },
    }
}

/// The state after one kept row has been taken in.
pub open spec fn load_row(st: InitView, row: RowView, is_transient: bool) -> InitView {
    InitView {
        found: st.found,
        used: st.used.insert(row.table_name),
        entries: put_entry(
            st.entries,
            EntryView {
                module_name: row.module_name,
                is_transient,
                table_name: row.table_name,
                key_id: row.key_id,
                key_version: row.key_version,
                is_used: false,
            },
        ),
    }
}

/// The state after the kept rows of one area have been taken in, in order.
pub open spec fn load_rows(st: InitView, rows: Seq<RowView>, is_transient: bool) -> InitView
    decreases rows.len(),
{
    if rows.len() == 0 {
        st
    } else {
        load_row(load_rows(st, rows.drop_last(), is_transient), rows.last(), is_transient)
    }
}

/// Whether every row has the one row format that is understood.
pub open spec fn rows_current(rows: Seq<RowView>) -> bool {
    forall|i: int| 0 <= i < rows.len() ==> (#[trigger] rows[i]).kvs_schema_version == 0
}

/// The rows as plain values.
pub open spec fn row_views(rows: Seq<PersistedRow>) -> Seq<RowView> {
    Seq::new(rows.len(), |i: int| rows[i]@)
}

/// What creating the table of a namespace does to the pass and to the
/// interned names, and what it returns.
pub open spec fn after_create_table(
    st: InitView,
    names: Seq<Seq<char>>,
    module_name: Seq<char>,
    table_name: Seq<char>,
    key_id: Seq<char>,
    key_version: u32,
    is_transient: bool,
) -> (InitView, Seq<Seq<char>>, Result<CreateTableView, InitError>) {
    match id_of(names, key_id) {
        None => (st, names, Err(InitError::InternerFull)),
        Some(id) => (
            InitView {
                found: st.found,
                used: st.used.insert(table_name),
                entries: put_entry(
                    st.entries,
                    EntryView {
                        module_name,
                        is_transient,
                        table_name,
                        key_id: id,
                        key_version,
                        is_used: true,
                    },
                ),
            },
            after_lookup(names, key_id),
            Ok(new_table(module_name, table_name, id, key_version, is_transient)),
        ),
    }
}

/// A declaration as plain values.
pub struct DeclView {
    pub module_name: Seq<char>,
    pub key_id: Seq<char>,
    pub key_version: u32,
    pub is_transient: bool,
}

/// What a live module declares: its name, the schema identity of its keys,
/// and the storage area of its namespace.
pub struct KvsDeclaration {
    pub module_name: String,
    pub key_id: String,
    pub key_version: u32,
    pub is_transient: bool,
}

impl View for KvsDeclaration {
    type V = DeclView;

    open spec fn view(&self) -> DeclView {
        DeclView {
            module_name: self.module_name@,
            key_id: self.key_id@,
            key_version: self.key_version,
            is_transient: self.is_transient,
        }
    }
}

/// The state with one more declared module name.
pub open spec fn with_found(st: InitView, module_name: Seq<char>) -> InitView {
    InitView { found: st.found.insert(module_name), used: st.used, entries: st.entries }
}

/// The state with the entry at `index` claimed.
pub open spec fn with_claimed(st: InitView, index: int) -> InitView {
    InitView {
        found: st.found,
        used: st.used,
        entries: st.entries.update(index, st.entries[index].claimed()),
    }
}

/// What one declaration does to the pass and to the interned names, and
/// what it returns: an error, nothing to do, or a table to create.
pub open spec fn after_init_module(st: InitView, names: Seq<Seq<char>>, d: DeclView) -> (
    InitView,
    Seq<Seq<char>>,
    Result<Option<CreateTableView>, InitError>,
) {
    if st.found.contains(d.module_name) {
        (st, names, Err(InitError::DuplicateModule))
    } else if has_target(st.entries, d.module_name, d.is_transient) {
        let index = index_of_target(st.entries, d.module_name, d.is_transient);
        let kept = st.entries[index];
        let claimed = with_claimed(with_found(st, d.module_name), index);
        if kept.key_id >= names.len() {
            (claimed, names, Err(InitError::UnknownKeyId))
        } else if names[kept.key_id as int] == d.key_id && kept.key_version == d.key_version {
            (claimed, names, Ok(None))
        } else {
            (claimed, names, Err(InitError::UnsupportedKeyMigration))
        }
    } else {
        match first_free_name(st.used, d.module_name, 0) {
            None => (with_found(st, d.module_name), names, Err(InitError::TableNamesExhausted)),
            Some(table_name) => {
                let (st2, names2, created) = after_create_table(
                    with_found(st, d.module_name),
                    names,
                    d.module_name,
                    table_name,
                    d.key_id,
                    d.key_version,
                    d.is_transient,
                );
                match created {
                    Ok(command) => (st2, names2, Ok(Some(command))),
                    Err(e) => (st2, names2, Err(e)),
                }
            },
        }
    }
}

/// What `init_module` returns, as plain values.
pub open spec fn step_view(r: Result<Option<CreateTable>, InitError>) -> Result<
    Option<CreateTableView>,
    InitError,
> {
    match r {
        Ok(Some(c)) => Ok(Some(c@)),
        Ok(None) => Ok(None),
        Err(e) => Err(e),
    }
}

/// What `create_kvs_table` returns, as plain values.
pub open spec fn created_view(r: Result<CreateTable, InitError>) -> Result<CreateTableView, InitError> {
    match r {
        Ok(c) => Ok(c@),
        Err(e) => Err(e),
    }
}

/// The statement that creates the data table of a namespace.
pub fn create_table_statement(is_transient: bool, table_name: &str) -> (sql: String)
    ensures
        sql@ == create_table_sql(is_transient, table_name@),
{
    let mut sql = "CREATE TABLE ".to_owned();
    sql.append(area_prefix_str(is_transient));
    sql.append(table_name);
    sql.append(
        " (key BLOB PRIMARY KEY, value BLOB NOT NULL, value_schema_id INTEGER NOT NULL, value_schema_ver INTEGER NOT NULL )",
    );
    sql
}

/// The statement that inserts a metadata row.
pub fn insert_row_statement(is_transient: bool) -> (sql: String)
    ensures
        sql@ == insert_row_sql(is_transient),
{
    let mut sql = "INSERT INTO ".to_owned();
    sql.append(area_prefix_str(is_transient));
    sql.append("sylphie_db_kvs_info (module");
    sql.append("_path, table_name, kvs_schema_version, key_id, key_version)");
    sql.append("VALUES (?, ?, ?, ?, ?)");
    assert(sql@ =~= insert_row_sql(is_transient));
    sql
}

/// The statement that reads all metadata rows of an area.
pub fn load_rows_statement(is_transient: bool) -> (sql: String)
    ensures
        sql@ == load_rows_sql(is_transient),
{
    let mut sql = "SELECT module".to_owned();
    sql.append("_path, table_name, kvs_schema_version, key_id, key_version FROM ");
    sql.append(area_prefix_str(is_transient));
    sql.append("sylphie_db_kvs_info");
    sql
}

/// The state of the startup pass.
pub struct InitKvsEvent {
    found_modules: NameSet,
    used_table_names: NameSet,
    module_metadata: MetadataMap,
}

impl View for InitKvsEvent {
    type V = InitView;

    closed spec fn view(&self) -> InitView {
        InitView {
            found: self.found_modules@,
            used: self.used_table_names@,
            entries: self.module_metadata@,
        }
    }
}

impl InitKvsEvent {
    /// No namespace has two entries, and the table name of every
    /// namespace counts as taken.
    pub open spec fn wf(&self) -> bool {
        &&& targets_distinct(self@.entries)
        &&& names_tracked(self@)
    }

    /// A pass that has seen nothing yet.
    pub fn new() -> (r: Self)
        ensures
            r.wf(),
            r@.found == Set::<Seq<char>>::empty(),
            r@.used == Set::<Seq<char>>::empty(),
            r@.entries == Seq::<EntryView>::empty(),
    {
        InitKvsEvent {
            found_modules: NameSet::new(),
            used_table_names: NameSet::new(),
            module_metadata: MetadataMap::new(),
        }
    }

    /// The namespaces known so far.
    pub fn metadata(&self) -> (r: &MetadataMap)
        ensures
            r@ == self@.entries,
    {
        &self.module_metadata
    }

    /// Takes in the rows kept in the metadata table of one area. Each
    /// starts unclaimed, and its table name counts as taken. Rows of
    /// another format than the current one are refused as a whole.
    pub fn load_kvs_metadata(&mut self, rows: &Vec<PersistedRow>, is_transient: bool) -> (r: Result<
        (),
        InitError,
    >)
        requires
            old(self).wf(),
        ensures
            final(self).wf(),
            rows_current(row_views(rows@)) ==> r is Ok && final(self)@ == load_rows(
                old(self)@,
                row_views(rows@),
                is_transient,
            ),
            !rows_current(row_views(rows@)) ==> r == Err::<(), InitError>(
                InitError::FutureSchemaVersion,
            ) && final(self)@ == old(self)@,
    {
        let ghost views = row_views(rows@);
        let mut k: usize = 0;
        while k < rows.len()
            invariant
                k <= rows@.len(),
                views == row_views(rows@),
                self.wf(),
                self@ == old(self)@,
                forall|i: int| 0 <= i < k ==> (#[trigger] views[i]).kvs_schema_version == 0,
            decreases rows@.len() - k,
        {
            if rows[k].kvs_schema_version != 0 {
                assert(views[k as int].kvs_schema_version != 0);
                return Err(InitError::FutureSchemaVersion);
            }
            k = k + 1;
        }
        let mut i: usize = 0;
        assert(views.take(0) =~= Seq::<RowView>::empty());
        while i < rows.len()
            invariant
                i <= rows@.len(),
                views == row_views(rows@),
                self.wf(),
                self@ == load_rows(old(self)@, views.take(i as int), is_transient),
            decreases rows@.len() - i,
        {
            let row = &rows[i];
            let ghost before = self@;
            self.used_table_names.insert(row.table_name.clone());
            self.module_metadata.insert(
                KvsTarget { module_name: row.module_name.clone(), is_transient },
                KvsMetadata {
                    table_name: row.table_name.clone(),
                    key_id: row.key_id,
                    key_version: row.key_version,
                    is_used: false,
                },
            );
            proof {
                let next = views.take(i + 1);
                assert(next.drop_last() =~= views.take(i as int));
                assert(next.last() == rows@[i as int]@);
                assert(self@ =~= load_row(before, rows@[i as int]@, is_transient));
                lemma_load_row(before, rows@[i as int]@, is_transient);
            }
            i = i + 1;
        }
        assert(views.take(rows@.len() as int) =~= views);
        Ok(())
    }

    /// The name for the table of a module: the first candidate that is not
    /// taken. `None` only if all candidates are taken.
    pub fn create_table_name(&self, module_name: &str) -> (r: Option<String>)
        ensures
            match r {
                Some(name) => first_free_name(self@.used, module_name@, 0) == Some(name@)
                    && !self@.used.contains(name@),
                None => first_free_name(self@.used, module_name@, 0) is None,
            },
    {
        proof {
            lemma_first_free_name(self@.used, module_name@, 0);
        }
        let mut nonce: u32 = 0;
        loop
            invariant
                first_free_name(self@.used, module_name@, 0) == first_free_name(
                    self@.used,
                    module_name@,
                    nonce as nat,
                ),
            decreases u32::MAX - nonce,
        {
            let name = table_name_candidate(nonce, module_name);
            if !self.used_table_names.contains(name.as_str()) {
                return Some(name);
            }
            if nonce == u32::MAX {
                assert(first_free_name(self@.used, module_name@, nonce as nat + 1) is None);
                return None;
            }
            nonce = nonce + 1;
        }
    }

    /// Records a new namespace with its table and returns the command that
    /// creates the table and inserts its metadata row. The schema name of
    /// the keys is interned on the way.
    pub fn create_kvs_table(
        &mut self,
        interner: &mut StringInterner,
        module_name: String,
        table_name: String,
        key_id: &str,
        key_version: u32,
        is_transient: bool,
    ) -> (r: Result<CreateTable, InitError>)
        requires
            old(self).wf(),
            old(interner).wf(),
        ensures
            final(self).wf(),
            final(interner).wf(),
            ({
                let (st, names, res) = after_create_table(
                    old(self)@,
                    old(interner)@,
                    module_name@,
                    table_name@,
                    key_id@,
                    key_version,
                    is_transient,
                );
                &&& final(self)@ == st
                &&& final(interner)@ == names
                &&& created_view(r) == res
            }),
    {
        let id = match interner.lookup_name(key_id) {
            Some(id) => id,
            None => {
                return Err(InitError::InternerFull);
            },
        };
        let command = CreateTable {
            create_sql: create_table_statement(is_transient, table_name.as_str()),
            insert_sql: insert_row_statement(is_transient),
            row: PersistedRow {
                module_name: module_name.clone(),
                table_name: table_name.clone(),
                kvs_schema_version: 0,
                key_id: id,
                key_version,
            },
        };
        proof {
            lemma_create_table(
                self@,
                old(interner)@,
                module_name@,
                table_name@,
                key_id@,
                key_version,
                is_transient,
            );
        }
        self.used_table_names.insert(table_name.clone());
        self.module_metadata.insert(
            KvsTarget { module_name, is_transient },
            KvsMetadata { table_name, key_id: id, key_version, is_used: true },
        );
        Ok(command)
    }

    /// Takes the declaration of one live module. A module name declared
    /// before is refused, whatever the area. A namespace that is known is
    /// claimed, and accepted if its keys are declared as they were kept.
    /// A namespace that is new gets a table.
    pub fn init_module(
        &mut self,
        interner: &mut StringInterner,
        key_id: &str,
        key_version: u32,
        module_name: &str,
        is_transient: bool,
    ) -> (r: Result<Option<CreateTable>, InitError>)
        requires
            old(self).wf(),
            old(interner).wf(),
        ensures
            final(self).wf(),
            final(interner).wf(),
            ({
                let (st, names, res) = after_init_module(
                    old(self)@,
                    old(interner)@,
                    DeclView { module_name: module_name@, key_id: key_id@, key_version, is_transient },
                );
                &&& final(self)@ == st
                &&& final(interner)@ == names
                &&& step_view(r) == res
            }),
            r matches Ok(Some(command)) ==> !old(self)@.used.contains(command.row.table_name@)
                && forall|i: int|
                0 <= i < old(self)@.entries.len() ==> (#[trigger] old(self)@.entries[i]).table_name
                    != command.row.table_name@,
    {
        proof {
            lemma_init_module(
                self@,
                interner@,
                DeclView { module_name: module_name@, key_id: key_id@, key_version, is_transient },
            );
        }
        if self.found_modules.contains(module_name) {
            return Err(InitError::DuplicateModule);
        }
        self.found_modules.insert(module_name.to_owned());
        match self.module_metadata.position(module_name, is_transient) {
            Some(index) => {
                let kept_id = self.module_metadata.metadata_at(index).key_id;
                let kept_version = self.module_metadata.metadata_at(index).key_version;
                self.module_metadata.mark_used(index);
                if !interner.contains_id(kept_id) {
                    return Err(InitError::UnknownKeyId);
                }
                let wanted = key_id.to_owned();
                let kept_name = interner.lookup_id(kept_id).to_owned();
                if kept_name == wanted && kept_version == key_version {
                    Ok(None)
                } else {
                    Err(InitError::UnsupportedKeyMigration)
                }
            },
            None => {
                let table_name = match self.create_table_name(module_name) {
                    Some(name) => name,
                    None => {
                        return Err(InitError::TableNamesExhausted);
                    },
                };
                match self.create_kvs_table(
                    interner,
                    module_name.to_owned(),
                    table_name,
                    key_id,
                    key_version,
                    is_transient,
                ) {
                    Ok(command) => Ok(Some(command)),
                    Err(e) => Err(e),
                }
            },
        }
    }
}


/// Giving up a transient namespace, as plain values.
pub struct DropTableView {
    pub drop_sql: Seq<char>,
    pub delete_sql: Seq<char>,
    pub table_name: Seq<char>,
}

/// Giving up a transient namespace that no live module claimed: its data
/// table is dropped and its metadata row deleted.
pub struct DropTable {
    /// The statement that drops the data table.
    pub drop_sql: String,
    /// The statement that deletes the metadata row; its one parameter is
    /// `table_name`.
    pub delete_sql: String,
    /// The name of the table that is given up.
    pub table_name: String,
}

impl View for DropTable {
    type V = DropTableView;

    open spec fn view(&self) -> DropTableView {
        DropTableView {
            drop_sql: self.drop_sql@,
            delete_sql: self.delete_sql@,
            table_name: self.table_name@,
        }
    }
}

/// The statement that drops the data table of a namespace.
pub open spec fn drop_table_sql(is_transient: bool, table_name: Seq<char>) -> Seq<char> {
    "DROP TABLE "@ + area_prefix(is_transient) + table_name
}

/// The statement that deletes the metadata row of a table.
pub open spec fn delete_row_sql(is_transient: bool) -> Seq<char> {
    "DELETE FROM "@ + area_prefix(is_transient) + "sylphie_db_kvs_info WHERE table_name = ?"@
}

/// The command that gives up the namespace of an entry.
pub open spec fn drop_command(e: EntryView) -> DropTableView {
    DropTableView {
        drop_sql: drop_table_sql(e.is_transient, e.table_name),
        delete_sql: delete_row_sql(e.is_transient),
        table_name: e.table_name,
    }
}

/// The commands that give up the abandoned namespaces among `entries`, in
/// the order of the entries.
pub open spec fn drop_commands(entries: Seq<EntryView>) -> Seq<DropTableView>
    decreases entries.len(),
{
    if entries.len() == 0 {
        Seq::empty()
    } else if entries.last().is_abandoned() {
        drop_commands(entries.drop_last()).push(drop_command(entries.last()))
    } else {
        drop_commands(entries.drop_last())
    }
}

/// The entries that stay after the abandoned ones are given up, in order.
pub open spec fn surviving(entries: Seq<EntryView>) -> Seq<EntryView>
    decreases entries.len(),
{
    if entries.len() == 0 {
        Seq::empty()
    } else if entries.last().is_abandoned() {
        surviving(entries.drop_last())
    } else {
        surviving(entries.drop_last()).push(entries.last())
    }
}

/// The commands as plain values.
pub open spec fn drop_views(commands: Seq<DropTable>) -> Seq<DropTableView> {
    Seq::new(commands.len(), |i: int| commands[i]@)
}

/// The commands as plain values.
pub open spec fn create_views(commands: Seq<CreateTable>) -> Seq<CreateTableView> {
    Seq::new(commands.len(), |i: int| commands[i]@)
}

/// The declarations as plain values.
pub open spec fn decl_views(declarations: Seq<KvsDeclaration>) -> Seq<DeclView> {
    Seq::new(declarations.len(), |i: int| declarations[i]@)
}

/// The statement that drops the data table of a namespace.
pub fn drop_table_statement(is_transient: bool, table_name: &str) -> (sql: String)
    ensures
        sql@ == drop_table_sql(is_transient, table_name@),
{
    let mut sql = "DROP TABLE ".to_owned();
    sql.append(area_prefix_str(is_transient));
    sql.append(table_name);
    sql
}

/// The statement that deletes the metadata row of a table.
pub fn delete_row_statement(is_transient: bool) -> (sql: String)
    ensures
        sql@ == delete_row_sql(is_transient),
{
    let mut sql = "DELETE FROM ".to_owned();
    sql.append(area_prefix_str(is_transient));
    sql.append("sylphie_db_kvs_info WHERE table_name = ?");
    sql
}

/// The finished metadata, as it is handed to every namespace owner.
pub struct InitKvsLate {
    module_metadata: MetadataMap,
}

impl View for InitKvsLate {
    type V = Seq<EntryView>;

    closed spec fn view(&self) -> Seq<EntryView> {
        self.module_metadata@
    }
}

impl InitKvsLate {
    /// No namespace has two entries.
    pub open spec fn wf(&self) -> bool {
        targets_distinct(self@)
    }

    /// The namespaces.
    pub fn metadata(&self) -> (r: &MetadataMap)
        ensures
            r@ == self@,
    {
        &self.module_metadata
    }
}

/// How the pass ends: the finished metadata, and the namespaces to give up.
pub struct KvsCleanup {
    pub late: InitKvsLate,
    pub dropped: Vec<DropTable>,
}

/// Every entry of `part` stands in `whole` before position `bound`.
spec fn drawn_from(part: Seq<EntryView>, whole: Seq<EntryView>, bound: int) -> bool {
    forall|k: int|
        0 <= k < part.len() ==> exists|j: int| 0 <= j < bound && j < whole.len() && whole[j] == #[trigger] part[k]
}

impl InitKvsEvent {
    /// Ends the pass. Transient namespaces that no live module claimed are
    /// given up; persistent ones stay, claimed or not, since a module may
    /// be switched off for a while without losing what it stored.
    pub fn finish(self) -> (r: KvsCleanup)
        requires
            self.wf(),
        ensures
            r.late.wf(),
            r.late@ == surviving(self@.entries),
            drop_views(r.dropped@) == drop_commands(self@.entries),
    {
        let ghost entries = self@.entries;
        let mut kept = MetadataMap::new();
        let mut dropped: Vec<DropTable> = Vec::new();
        let mut i: usize = 0;
        assert(entries.take(0) =~= Seq::<EntryView>::empty());
        assert(drop_views(dropped@) =~= Seq::<DropTableView>::empty());
        while i < self.module_metadata.len()
            invariant
                i <= entries.len(),
                entries == self@.entries,
                targets_distinct(entries),
                kept.wf(),
                kept@ == surviving(entries.take(i as int)),
                drawn_from(kept@, entries, i as int),
                drop_views(dropped@) == drop_commands(entries.take(i as int)),
            decreases entries.len() - i,
        {
            let target = self.module_metadata.target_at(i);
            let metadata = self.module_metadata.metadata_at(i);
            let ghost e = entries[i as int];
            let ghost before_kept = kept@;
            let ghost before_dropped = drop_views(dropped@);
            proof {
                let next = entries.take(i + 1);
                assert(next.drop_last() =~= entries.take(i as int));
                assert(next.last() == e);
            }
            if target.is_transient && !metadata.is_used {
                dropped.push(
                    DropTable {
                        drop_sql: drop_table_statement(true, metadata.table_name.as_str()),
                        delete_sql: delete_row_statement(true),
                        table_name: metadata.table_name.clone(),
                    },
                );
                assert(drop_views(dropped@) =~= before_dropped.push(drop_command(e)));
            } else {
                proof {
                    if has_target(before_kept, e.module_name, e.is_transient) {
                        let k = index_of_target(before_kept, e.module_name, e.is_transient);
                        let j = choose|j: int| 0 <= j < i && j < entries.len() && entries[j] == before_kept[k];
                        assert(entries[j].is_for(entries[i as int].module_name, entries[i as int].is_transient));
                    }
                }
                kept.insert(
                    KvsTarget { module_name: target.module_name.clone(), is_transient: target.is_transient },
                    KvsMetadata {
                        table_name: metadata.table_name.clone(),
                        key_id: metadata.key_id,
                        key_version: metadata.key_version,
                        is_used: metadata.is_used,
                    },
                );
                assert(kept@ =~= before_kept.push(e));
                assert(drop_views(dropped@) =~= before_dropped);
            }
            assert forall|k: int| 0 <= k < kept@.len() implies exists|j: int|
                0 <= j < i + 1 && j < entries.len() && entries[j] == #[trigger] kept@[k] by {
                if k < before_kept.len() {
                    let j = choose|j: int| 0 <= j < i && j < entries.len() && entries[j] == before_kept[k];
                    assert(entries[j] == kept@[k]);
                } else {
                    assert(entries[i as int] == kept@[k]);
                }
            }
            i = i + 1;
        }
        assert(entries.take(entries.len() as int) =~= entries);
        KvsCleanup { late: InitKvsLate { module_metadata: kept }, dropped }
    }
}

/// What the declarations from position `from` on do to the pass and to the
/// interned names, one after the other, stopping at the first that is
/// refused; `created` collects the tables to create.
pub open spec fn after_declarations(
    st: InitView,
    names: Seq<Seq<char>>,
    created: Seq<CreateTableView>,
    decls: Seq<DeclView>,
    from: int,
) -> (InitView, Seq<Seq<char>>, Result<Seq<CreateTableView>, InitError>)
    decreases decls.len() - from,
{
    if from < 0 || from >= decls.len() {
        (st, names, Ok(created))
    } else {
        let (st2, names2, res) = after_init_module(st, names, decls[from]);
        match res {
            Err(e) => (st2, names2, Err(e)),
            Ok(None) => after_declarations(st2, names2, created, decls, from + 1),
            Ok(Some(c)) => after_declarations(st2, names2, created.push(c), decls, from + 1),
        }
    }
}

/// The pass before any declaration: both areas loaded, the persistent one
/// first.
pub open spec fn loaded_state(persistent: Seq<RowView>, transient: Seq<RowView>) -> InitView {
    load_rows(
        load_rows(
            InitView { found: Set::empty(), used: Set::empty(), entries: Seq::empty() },
            persistent,
            false,
        ),
        transient,
        true,
    )
}

/// What the whole pass asks of the database, and the metadata it ends with.
pub struct KvsInitPlan {
    /// The tables to create, in the order of the declarations.
    pub created: Vec<CreateTable>,
    /// The abandoned transient namespaces to give up.
    pub dropped: Vec<DropTable>,
    /// The finished metadata.
    pub late: InitKvsLate,
}

/// The whole startup pass: loads the kept rows of both areas, takes the
/// declarations in their order, and ends with the cleanup. The first
/// refused declaration ends the pass with its error.
pub fn init_kvs(
    persistent_rows: &Vec<PersistedRow>,
    transient_rows: &Vec<PersistedRow>,
    declarations: &Vec<KvsDeclaration>,
    interner: &mut StringInterner,
) -> (r: Result<KvsInitPlan, InitError>)
    requires
        old(interner).wf(),
    ensures
        final(interner).wf(),
        !(rows_current(row_views(persistent_rows@)) && rows_current(row_views(transient_rows@)))
            ==> (r matches Err(e) && e == InitError::FutureSchemaVersion) && final(interner)@ == old(
            interner,
        )@,
        rows_current(row_views(persistent_rows@)) && rows_current(row_views(transient_rows@)) ==> ({
            let (st, names, res) = after_declarations(
                loaded_state(row_views(persistent_rows@), row_views(transient_rows@)),
                old(interner)@,
                Seq::empty(),
                decl_views(declarations@),
                0,
            );
            &&& final(interner)@ == names
            &&& match res {
                Err(e) => r matches Err(err) && err == e,
                Ok(created) => r matches Ok(plan) && create_views(plan.created@) == created
                    && plan.late.wf() && plan.late@ == surviving(st.entries) && drop_views(
                    plan.dropped@,
                ) == drop_commands(st.entries),
            }
        }),
{
    let mut event = InitKvsEvent::new();
    let ghost start = event@;
    assert(start =~= InitView { found: Set::empty(), used: Set::empty(), entries: Seq::empty() });
    match event.load_kvs_metadata(persistent_rows, false) {
        Err(e) => {
            return Err(e);
        },
        Ok(()) => {},
    }
    match event.load_kvs_metadata(transient_rows, true) {
        Err(e) => {
            return Err(e);
        },
        Ok(()) => {},
    }
    let ghost loaded = event@;
    let ghost decls = decl_views(declarations@);
    let mut created: Vec<CreateTable> = Vec::new();
    assert(create_views(created@) =~= Seq::<CreateTableView>::empty());
    let mut i: usize = 0;
    while i < declarations.len()
        invariant
            i <= declarations@.len(),
            decls == decl_views(declarations@),
            event.wf(),
            interner.wf(),
            rows_current(row_views(persistent_rows@)),
            rows_current(row_views(transient_rows@)),
            loaded == loaded_state(row_views(persistent_rows@), row_views(transient_rows@)),
            after_declarations(loaded, old(interner)@, Seq::empty(), decls, 0) == after_declarations(
                event@,
                interner@,
                create_views(created@),
                decls,
                i as int,
            ),
        decreases declarations@.len() - i,
    {
        let d = &declarations[i];
        let ghost before = create_views(created@);
        assert(decls[i as int] == d@);
        match event.init_module(
            interner,
            d.key_id.as_str(),
            d.key_version,
            d.module_name.as_str(),
            d.is_transient,
        ) {
            Err(e) => {
                return Err(e);
            },
            Ok(None) => {},
            Ok(Some(command)) => {
                created.push(command);
                assert(create_views(created@) =~= before.push(command@));
            },
        }
        i = i + 1;
    }
    let cleanup = event.finish();
    Ok(KvsInitPlan { created, dropped: cleanup.dropped, late: cleanup.late })
}

} // verus!
