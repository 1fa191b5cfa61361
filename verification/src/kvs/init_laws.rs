//! What holds of the startup pass, whatever the kept rows and the
//! declarations are.

use crate::kvs::init::{
    after_create_table, after_declarations, after_init_module, drop_command, drop_commands,
    load_row, load_rows, loaded_state, names_tracked, surviving, with_claimed, with_found,
    CreateTableView, DeclView, InitView,
};
use crate::kvs::metadata::{
    has_target, index_of_target, put_entry, table_names_distinct, targets_distinct, EntryView,
    RowView,
};
use crate::kvs::names::{first_free_name, table_name_at};
use vstd::prelude::*;

verus! {

/// Whether a declaration in `decls`, at position `from` or later, names the
/// given namespace.
pub open spec fn declared_from(
    decls: Seq<DeclView>,
    from: int,
    module_name: Seq<char>,
    is_transient: bool,
) -> bool {
    exists|k: int|
        from <= k < decls.len() && 0 <= k && (#[trigger] decls[k]).module_name == module_name
            && decls[k].is_transient == is_transient
}

/// The name that an allocation returns is not taken, it is the candidate
/// of some counter value, and every candidate before that one is taken:
/// where the first candidates collide with names in use, the counter moves
/// on until a free name is found.
pub proof fn lemma_first_free_name(used: Set<Seq<char>>, module_name: Seq<char>, from: nat)
    ensures
        match first_free_name(used, module_name, from) {
            Some(name) => !used.contains(name) && exists|k: nat|
                from <= k <= u32::MAX && name == #[trigger] table_name_at(k as u32, module_name)
                    && forall|m: nat|
                    from <= m < k ==> used.contains(#[trigger] table_name_at(m as u32, module_name)),
            None => forall|m: nat|
                from <= m <= u32::MAX ==> used.contains(
                    #[trigger] table_name_at(m as u32, module_name),
                ),
        },
    decreases (u32::MAX as nat + 1 - from) as nat,
{
    if from > u32::MAX {
    } else if !used.contains(table_name_at(from as u32, module_name)) {
        assert(table_name_at(from as u32, module_name) == table_name_at(from as u32, module_name));
    } else {
        lemma_first_free_name(used, module_name, from + 1);
        match first_free_name(used, module_name, from + 1) {
            Some(name) => {
                let k = choose|k: nat|
                    from + 1 <= k <= u32::MAX && name == #[trigger] table_name_at(k as u32, module_name)
                        && forall|m: nat|
                        from + 1 <= m < k ==> used.contains(
                            #[trigger] table_name_at(m as u32, module_name),
                        );
                assert forall|m: nat| from <= m < k implies used.contains(
                    #[trigger] table_name_at(m as u32, module_name),
                ) by {
                    if m == from {
                    }
                }
                assert(from <= k <= u32::MAX && name == table_name_at(k as u32, module_name));
            },
            None => {
                assert forall|m: nat| from <= m <= u32::MAX implies used.contains(
                    #[trigger] table_name_at(m as u32, module_name),
                ) by {
                    if m == from {
                    }
                }
            },
        }
    }
}

/// Putting an entry in keeps one entry per namespace, moves no other
/// entry, and loses none.
pub proof fn lemma_put_entry(entries: Seq<EntryView>, e: EntryView)
    requires
        targets_distinct(entries),
    ensures
        targets_distinct(put_entry(entries, e)),
        put_entry(entries, e).len() >= entries.len(),
        has_target(put_entry(entries, e), e.module_name, e.is_transient),
        put_entry(entries, e)[index_of_target(put_entry(entries, e), e.module_name, e.is_transient)]
            == e,
        forall|i: int|
            0 <= i < entries.len() && !(#[trigger] entries[i]).is_for(e.module_name, e.is_transient)
                ==> put_entry(entries, e)[i] == entries[i],
        forall|i: int|
            0 <= i < put_entry(entries, e).len() ==> (#[trigger] put_entry(entries, e)[i]) == e || (i
                < entries.len() && put_entry(entries, e)[i] == entries[i]),
{
    let after = put_entry(entries, e);
    let at: int = if has_target(entries, e.module_name, e.is_transient) {
        index_of_target(entries, e.module_name, e.is_transient)
    } else {
        entries.len() as int
    };
    assert(after[at] == e);
    assert(after[at].is_for(e.module_name, e.is_transient));
    assert forall|a: int, b: int| 0 <= a < b < after.len() implies !(#[trigger] after[a]).is_for(
        (#[trigger] after[b]).module_name,
        after[b].is_transient,
    ) by {
        if a != at && b != at {
            assert(!entries[a].is_for(entries[b].module_name, entries[b].is_transient));
        } else if a == at {
            if at < entries.len() {
                assert(!entries[a].is_for(entries[b].module_name, entries[b].is_transient));
            }
        } else {
            if at < entries.len() {
                assert(!entries[a].is_for(entries[b].module_name, entries[b].is_transient));
            } else {
                assert(entries[a].is_for(e.module_name, e.is_transient) ==> has_target(
                    entries,
                    e.module_name,
                    e.is_transient,
                ));
            }
        }
    }
    let chosen = index_of_target(after, e.module_name, e.is_transient);
    assert(after[chosen].is_for(e.module_name, e.is_transient));
    if chosen < at {
        assert(!after[chosen].is_for(after[at].module_name, after[at].is_transient));
    }
    if chosen > at {
        assert(!after[at].is_for(after[chosen].module_name, after[chosen].is_transient));
    }
}

/// Loading one kept row keeps one entry per namespace and counts every
/// table name as taken.
pub proof fn lemma_load_row(st: InitView, row: RowView, is_transient: bool)
    requires
        targets_distinct(st.entries),
        names_tracked(st),
    ensures
        targets_distinct(load_row(st, row, is_transient).entries),
        names_tracked(load_row(st, row, is_transient)),
        load_row(st, row, is_transient).found == st.found,
{
    let e = EntryView {
        module_name: row.module_name,
        is_transient,
        table_name: row.table_name,
        key_id: row.key_id,
        key_version: row.key_version,
        is_used: false,
    };
    lemma_put_entry(st.entries, e);
    let after = load_row(st, row, is_transient);
    assert forall|i: int| 0 <= i < after.entries.len() implies after.used.contains(
        (#[trigger] after.entries[i]).table_name,
    ) by {
        if after.entries[i] != e {
            assert(st.used.contains(st.entries[i].table_name));
        }
    }
}

/// Recording a new namespace keeps one entry per namespace and counts
/// every table name as taken.
pub proof fn lemma_create_table(
    st: InitView,
    names: Seq<Seq<char>>,
    module_name: Seq<char>,
    table_name: Seq<char>,
    key_id: Seq<char>,
    key_version: u32,
    is_transient: bool,
)
    requires
        targets_distinct(st.entries),
        names_tracked(st),
    ensures
        targets_distinct(
            after_create_table(st, names, module_name, table_name, key_id, key_version, is_transient).0.entries,
        ),
        names_tracked(
            after_create_table(st, names, module_name, table_name, key_id, key_version, is_transient).0,
        ),
{
    let (after, names2, res) = after_create_table(
        st,
        names,
        module_name,
        table_name,
        key_id,
        key_version,
        is_transient,
    );
    match res {
        Err(e) => {},
        Ok(c) => {
            let e = EntryView {
                module_name,
                is_transient,
                table_name,
                key_id: c.row.key_id,
                key_version,
                is_used: true,
            };
            lemma_put_entry(st.entries, e);
            assert forall|i: int| 0 <= i < after.entries.len() implies after.used.contains(
                (#[trigger] after.entries[i]).table_name,
            ) by {
                if after.entries[i] != e {
                    assert(st.used.contains(st.entries[i].table_name));
                }
            }
        },
    }
}

/// Loading kept rows keeps one entry per namespace and counts every table
/// name as taken.
pub proof fn lemma_load_rows(st: InitView, rows: Seq<RowView>, is_transient: bool)
    requires
        targets_distinct(st.entries),
        names_tracked(st),
    ensures
        targets_distinct(load_rows(st, rows, is_transient).entries),
        names_tracked(load_rows(st, rows, is_transient)),
        load_rows(st, rows, is_transient).found == st.found,
    decreases rows.len(),
{
    if rows.len() > 0 {
        lemma_load_rows(st, rows.drop_last(), is_transient);
        lemma_load_row(load_rows(st, rows.drop_last(), is_transient), rows.last(), is_transient);
    }
}

/// One declaration keeps one entry per namespace and counts every table
/// name as taken; it changes no entry but that of the declared namespace,
/// and never removes one. Where it creates a table, the name of that table
/// was not taken before: no namespace known so far has it.
pub proof fn lemma_init_module(st: InitView, names: Seq<Seq<char>>, d: DeclView)
    requires
        targets_distinct(st.entries),
        names_tracked(st),
    ensures
        ({
            let (st2, names2, res) = after_init_module(st, names, d);
            &&& targets_distinct(st2.entries)
            &&& names_tracked(st2)
            &&& st2.entries.len() >= st.entries.len()
            &&& forall|i: int|
                0 <= i < st.entries.len() && !(#[trigger] st.entries[i]).is_for(
                    d.module_name,
                    d.is_transient,
                ) ==> st2.entries[i] == st.entries[i]
            &&& forall|i: int|
                0 <= i < st.entries.len() ==> (#[trigger] st2.entries[i]).table_name
                    == st.entries[i].table_name && st2.entries[i].is_for(
                    st.entries[i].module_name,
                    st.entries[i].is_transient,
                )
            &&& res matches Ok(Some(c)) ==> {
                &&& !st.used.contains(c.row.table_name)
                &&& st2.entries == st.entries.push(
                    EntryView {
                        module_name: d.module_name,
                        is_transient: d.is_transient,
                        table_name: c.row.table_name,
                        key_id: c.row.key_id,
                        key_version: d.key_version,
                        is_used: true,
                    },
                )
                &&& forall|i: int|
                    0 <= i < st.entries.len() ==> (#[trigger] st.entries[i]).table_name
                        != c.row.table_name
            }
            &&& res matches Ok(None) ==> st2.entries.len() == st.entries.len()
            &&& table_names_distinct(st.entries) ==> table_names_distinct(st2.entries)
        }),
{
    let (st2, names2, res) = after_init_module(st, names, d);
    if st.found.contains(d.module_name) {
    } else if has_target(st.entries, d.module_name, d.is_transient) {
        let index = index_of_target(st.entries, d.module_name, d.is_transient);
        let claimed = with_claimed(with_found(st, d.module_name), index);
        assert(st2 == claimed);
        assert forall|a: int, b: int| 0 <= a < b < st2.entries.len() implies !(
        #[trigger] st2.entries[a]).is_for((#[trigger] st2.entries[b]).module_name, st2.entries[b].is_transient) by {
            assert(!st.entries[a].is_for(st.entries[b].module_name, st.entries[b].is_transient));
        }
        assert forall|i: int| 0 <= i < st2.entries.len() implies st2.used.contains(
            (#[trigger] st2.entries[i]).table_name,
        ) by {
            assert(st.used.contains(st.entries[i].table_name));
        }
        if table_names_distinct(st.entries) {
            assert forall|a: int, b: int| 0 <= a < b < st2.entries.len() implies (
            #[trigger] st2.entries[a]).table_name != (#[trigger] st2.entries[b]).table_name by {
                assert(st.entries[a].table_name != st.entries[b].table_name);
            }
        }
    } else {
        lemma_first_free_name(st.used, d.module_name, 0);
        match first_free_name(st.used, d.module_name, 0) {
            None => {},
            Some(table_name) => {
                let st1 = with_found(st, d.module_name);
                let (st3, names3, created) = after_create_table(
                    st1,
                    names,
                    d.module_name,
                    table_name,
                    d.key_id,
                    d.key_version,
                    d.is_transient,
                );
                match created {
                    Err(e) => {},
                    Ok(c) => {
                        let e = EntryView {
                            module_name: d.module_name,
                            is_transient: d.is_transient,
                            table_name,
                            key_id: c.row.key_id,
                            key_version: d.key_version,
                            is_used: true,
                        };
                        lemma_put_entry(st.entries, e);
                        assert(st2.entries == st.entries.push(e));
                        assert forall|i: int| 0 <= i < st.entries.len() implies (
                        #[trigger] st.entries[i]).table_name != table_name by {
                            assert(st.used.contains(st.entries[i].table_name));
                        }
                        assert forall|i: int| 0 <= i < st2.entries.len() implies st2.used.contains(
                            (#[trigger] st2.entries[i]).table_name,
                        ) by {
                            if i < st.entries.len() {
                                assert(st.used.contains(st.entries[i].table_name));
                            }
                        }
                        if table_names_distinct(st.entries) {
                            assert forall|a: int, b: int|
                                0 <= a < b < st2.entries.len() implies (
                            #[trigger] st2.entries[a]).table_name != (
                            #[trigger] st2.entries[b]).table_name by {
                                if b < st.entries.len() {
                                    assert(st.entries[a].table_name != st.entries[b].table_name);
                                } else {
                                    assert(st.entries[a].table_name != table_name);
                                }
                            }
                        }
                    },
                }
            },
        }
    }
}

/// Over a whole pass no two namespaces come to share a table name: if the
/// kept namespaces had distinct table names, then so have all namespaces
/// after the declarations, the new ones included.
pub proof fn lemma_table_names_stay_distinct(
    st: InitView,
    names: Seq<Seq<char>>,
    created: Seq<CreateTableView>,
    decls: Seq<DeclView>,
    from: int,
)
    requires
        targets_distinct(st.entries),
        names_tracked(st),
        table_names_distinct(st.entries),
        0 <= from,
    ensures
        targets_distinct(after_declarations(st, names, created, decls, from).0.entries),
        names_tracked(after_declarations(st, names, created, decls, from).0),
        table_names_distinct(after_declarations(st, names, created, decls, from).0.entries),
    decreases decls.len() - from,
{
    if from < decls.len() {
        lemma_init_module(st, names, decls[from]);
        let (st2, names2, res) = after_init_module(st, names, decls[from]);
        match res {
            Err(e) => {},
            Ok(None) => {
                lemma_table_names_stay_distinct(st2, names2, created, decls, from + 1);
            },
            Ok(Some(c)) => {
                lemma_table_names_stay_distinct(st2, names2, created.push(c), decls, from + 1);
            },
        }
    }
}

/// From the kept rows to the end of the pass: if no two kept namespaces
/// share a table, then no two namespaces share a table when the pass is
/// over, whatever was declared, and so none of those that stay.
pub proof fn lemma_whole_pass_keeps_tables_apart(
    persistent: Seq<RowView>,
    transient: Seq<RowView>,
    names: Seq<Seq<char>>,
    decls: Seq<DeclView>,
)
    requires
        table_names_distinct(loaded_state(persistent, transient).entries),
    ensures
        targets_distinct(loaded_state(persistent, transient).entries),
        table_names_distinct(
            after_declarations(loaded_state(persistent, transient), names, Seq::empty(), decls, 0).0.entries,
        ),
        table_names_distinct(
            surviving(
                after_declarations(
                    loaded_state(persistent, transient),
                    names,
                    Seq::empty(),
                    decls,
                    0,
                ).0.entries,
            ),
        ),
{
    let start = InitView { found: Set::empty(), used: Set::empty(), entries: Seq::empty() };
    lemma_load_rows(start, persistent, false);
    lemma_load_rows(load_rows(start, persistent, false), transient, true);
    let loaded = loaded_state(persistent, transient);
    lemma_table_names_stay_distinct(loaded, names, Seq::empty(), decls, 0);
    let end = after_declarations(loaded, names, Seq::empty(), decls, 0).0.entries;
    lemma_surviving_is_drawn_in_order(end);
    let rest = surviving(end);
    assert forall|i: int, j: int| 0 <= i < j < rest.len() implies (#[trigger] rest[i]).table_name != (
    #[trigger] rest[j]).table_name by {
        let (a, b) = choose|a: int, b: int| 0 <= a < b < end.len() && end[a] == rest[i] && end[b] == rest[j];
        assert(end[a].table_name != end[b].table_name);
    }
}

/// The entries that stay stand among all entries in the same order.
pub proof fn lemma_surviving_is_drawn_in_order(entries: Seq<EntryView>)
    ensures
        surviving(entries).len() <= entries.len(),
        forall|i: int|
            0 <= i < surviving(entries).len() ==> exists|a: int|
                i <= a < entries.len() && entries[a] == #[trigger] surviving(entries)[i],
        forall|i: int, j: int|
            0 <= i < j < surviving(entries).len() ==> exists|a: int, b: int|
                0 <= a < b < entries.len() && entries[a] == #[trigger] surviving(entries)[i] && entries[b]
                    == #[trigger] surviving(entries)[j],
    decreases entries.len(),
{
    if entries.len() > 0 {
        let rest = entries.drop_last();
        lemma_surviving_is_drawn_in_order(rest);
        let kept = surviving(entries);
        let before = surviving(rest);
        assert forall|i: int| 0 <= i < kept.len() implies exists|a: int|
            i <= a < entries.len() && entries[a] == #[trigger] kept[i] by {
            if i < before.len() {
                let a = choose|a: int| i <= a < rest.len() && rest[a] == before[i];
                assert(i <= a < entries.len() && entries[a] == kept[i]);
            } else {
                assert(entries[entries.len() - 1] == kept[i]);
            }
        }
        assert forall|i: int, j: int| 0 <= i < j < kept.len() implies exists|a: int, b: int|
            0 <= a < b < entries.len() && entries[a] == #[trigger] kept[i] && entries[b]
                == #[trigger] kept[j] by {
            if j < before.len() {
                let (a, b) = choose|a: int, b: int|
                    0 <= a < b < rest.len() && rest[a] == before[i] && rest[b] == before[j];
                assert(0 <= a < b < entries.len() && entries[a] == kept[i] && entries[b] == kept[j]);
            } else {
                let a = choose|a: int| i <= a < rest.len() && rest[a] == before[i];
                let b = entries.len() - 1;
                assert(0 <= a < b < entries.len() && entries[a] == kept[i] && entries[b] == kept[j]);
            }
        }
    }
}

/// A namespace that no declaration names goes through the pass as it was:
/// in the same place, with the same table, claimed or not as before.
pub proof fn lemma_undeclared_entry_is_untouched(
    st: InitView,
    names: Seq<Seq<char>>,
    created: Seq<CreateTableView>,
    decls: Seq<DeclView>,
    from: int,
    i: int,
)
    requires
        targets_distinct(st.entries),
        names_tracked(st),
        0 <= from,
        0 <= i < st.entries.len(),
        !declared_from(decls, from, st.entries[i].module_name, st.entries[i].is_transient),
    ensures
        i < after_declarations(st, names, created, decls, from).0.entries.len(),
        after_declarations(st, names, created, decls, from).0.entries[i] == st.entries[i],
    decreases decls.len() - from,
{
    if from < decls.len() {
        let d = decls[from];
        lemma_init_module(st, names, d);
        let (st2, names2, res) = after_init_module(st, names, d);
        assert(!(d.module_name == st.entries[i].module_name && d.is_transient
            == st.entries[i].is_transient));
        assert(!st.entries[i].is_for(d.module_name, d.is_transient));
        assert(st2.entries[i] == st.entries[i]);
        assert(!declared_from(decls, from + 1, st2.entries[i].module_name, st2.entries[i].is_transient))
            by {
            if declared_from(decls, from + 1, st2.entries[i].module_name, st2.entries[i].is_transient) {
                let k = choose|k: int|
                    from + 1 <= k < decls.len() && 0 <= k && (#[trigger] decls[k]).module_name
                        == st2.entries[i].module_name && decls[k].is_transient
                        == st2.entries[i].is_transient;
                assert(from <= k < decls.len() && decls[k].module_name == st.entries[i].module_name);
            }
        }
        match res {
            Err(e) => {},
            Ok(None) => {
                lemma_undeclared_entry_is_untouched(st2, names2, created, decls, from + 1, i);
            },
            Ok(Some(c)) => {
                lemma_undeclared_entry_is_untouched(st2, names2, created.push(c), decls, from + 1, i);
            },
        }
    }
}

/// The cleanup gives up exactly the abandoned entries: an entry that is
/// transient and unclaimed has its table dropped and leaves the metadata;
/// every other entry, so every persistent one, stays as it is.
pub proof fn lemma_cleanup_splits(entries: Seq<EntryView>, i: int)
    requires
        0 <= i < entries.len(),
    ensures
        entries[i].is_abandoned() ==> drop_commands(entries).contains(drop_command(entries[i])),
        !entries[i].is_abandoned() ==> surviving(entries).contains(entries[i]),
        forall|k: int|
            0 <= k < surviving(entries).len() ==> !(#[trigger] surviving(entries)[k]).is_abandoned(),
        forall|k: int|
            0 <= k < surviving(entries).len() ==> entries.contains(#[trigger] surviving(entries)[k]),
    decreases entries.len(),
{
    let rest = entries.drop_last();
    let last = entries.last();
    if i < entries.len() - 1 {
        lemma_cleanup_splits(rest, i);
        assert(rest[i] == entries[i]);
        if entries[i].is_abandoned() {
            let k = choose|k: int|
                0 <= k < drop_commands(rest).len() && drop_commands(rest)[k] == drop_command(entries[i]);
            assert(drop_commands(entries)[k] == drop_command(entries[i]));
        } else {
            let k = choose|k: int| 0 <= k < surviving(rest).len() && surviving(rest)[k] == entries[i];
            assert(surviving(entries)[k] == entries[i]);
        }
    } else {
        if entries.len() > 1 {
            lemma_cleanup_splits(rest, 0);
        }
        if last.is_abandoned() {
            assert(drop_commands(entries)[drop_commands(rest).len() as int] == drop_command(last));
        } else {
            assert(surviving(entries)[surviving(rest).len() as int] == last);
        }
    }
    assert forall|k: int| 0 <= k < surviving(entries).len() implies !(
    #[trigger] surviving(entries)[k]).is_abandoned() && entries.contains(surviving(entries)[k]) by {
        if k < surviving(rest).len() {
            assert(surviving(entries)[k] == surviving(rest)[k]);
            assert(rest.contains(surviving(rest)[k]));
            let j = choose|j: int| 0 <= j < rest.len() && rest[j] == surviving(rest)[k];
            assert(entries[j] == surviving(rest)[k]);
        } else {
            assert(surviving(entries)[k] == last);
            assert(entries[entries.len() - 1] == last);
        }
    }
}

/// A namespace that was kept from an earlier run and that no live module
/// declares in this one: if it is transient and was not claimed, the pass
/// drops its table and removes it from the metadata; if it is persistent,
/// the pass keeps it with its table.
pub proof fn lemma_absent_namespace(
    st: InitView,
    names: Seq<Seq<char>>,
    decls: Seq<DeclView>,
    i: int,
)
    requires
        targets_distinct(st.entries),
        names_tracked(st),
        0 <= i < st.entries.len(),
        !st.entries[i].is_used,
        !declared_from(decls, 0, st.entries[i].module_name, st.entries[i].is_transient),
    ensures
        ({
            let end = after_declarations(st, names, Seq::empty(), decls, 0).0.entries;
            &&& st.entries[i].is_transient ==> drop_commands(end).contains(
                drop_command(st.entries[i]),
            ) && !surviving(end).contains(st.entries[i])
            &&& !st.entries[i].is_transient ==> surviving(end).contains(st.entries[i])
        }),
{
    let end = after_declarations(st, names, Seq::empty(), decls, 0).0.entries;
    lemma_undeclared_entry_is_untouched(st, names, Seq::empty(), decls, 0, i);
    lemma_cleanup_splits(end, i);
    if st.entries[i].is_transient && surviving(end).contains(st.entries[i]) {
        let k = choose|k: int| 0 <= k < surviving(end).len() && surviving(end)[k] == st.entries[i];
        assert(!surviving(end)[k].is_abandoned());
    }
}

} // verus!
