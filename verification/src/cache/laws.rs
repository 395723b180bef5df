//! What a cache promises of its operations together.

use super::key::{
    collapsed, is_ascii, joined, key_of, lemma_joined_grows, lemma_joined_push, lemma_words,
    lowercase, normalised, words, SEPARATOR,
};
use super::quota::{spent, with_spent};
use super::table::{law_names_are_distinct, Kind, Table};
use super::bibrec::{found_fields, json_fields, record};
use super::{
    adds_only_tables, begin_read, begin_write, commit, committed, create_blob_table,
    create_count_table, create_database, create_text_table, found_blob, found_text, has_schema, has_table, insert_blob, insert_gave, insert_text, is_table_name, lookup,
    open_refused, open_table_gave, opened_at, read_blob, read_count, read_gave, read_refused, read_text, reads, rows,
    sees, setup_refused, store, write_refused, written, CacheError, Cell, MidhashCache, Rows, Tables,
    Writer,
};
use crate::text::{ascii_lower, is_white_space, to_ascii_lowercase};
use redb::{Database, ReadTransaction};
use std::collections::BTreeMap;
use std::path::PathBuf;
use vstd::prelude::*;

verus! {

// ---- tables ----

/// A read of text gives the row that is there: nothing where there is none, and
/// otherwise all of it.
pub proof fn law_a_read_of_text_is_the_row(
    tables: Tables,
    table: Table,
    key: Seq<char>,
    value: Option<String>,
)
    requires
        found_text(value) == lookup(tables, table, key),
    ensures
        ({
            let name = table.spec_name();
            let there = tables.contains_key(name) && tables[name].contains_key(key);
            match value {
                Some(value) => there && tables[name][key] == Cell::Text(value@),
                None => !there,
            }
        }),
{
}

/// A read of bytes gives the row that is there: nothing where there is none, and
/// otherwise all of it.
pub proof fn law_a_read_of_bytes_is_the_row(
    tables: Tables,
    table: Table,
    key: Seq<char>,
    value: Option<Vec<u8>>,
)
    requires
        found_blob(value) == lookup(tables, table, key),
    ensures
        ({
            let name = table.spec_name();
            let there = tables.contains_key(name) && tables[name].contains_key(key);
            match value {
                Some(value) => there && tables[name][key] == Cell::Blob(value@),
                None => !there,
            }
        }),
{
}

/// A read of a record gives what the row's text stands for: all its fields, and
/// nothing exactly where there is no row or its text stands for no record.
pub proof fn law_a_read_of_a_record_is_what_the_row_stands_for(
    tables: Tables,
    key: Seq<char>,
    fields: Option<BTreeMap<String, String>>,
)
    requires
        found_fields(fields) == record(lookup(tables, Table::Bibrec, key)),
    ensures
        ({
            let name = Table::Bibrec.spec_name();
            let there = tables.contains_key(name) && tables[name].contains_key(key);
            match fields {
                Some(fields) => there && tables[name][key] is Text && json_fields(
                    tables[name][key]->Text_0,
                ) == Some(fields.deep_view()),
                None => !there || !(tables[name][key] is Text) || json_fields(
                    tables[name][key]->Text_0,
                ) is None,
            }
        }),
{
}

/// A write that succeeds changes one row of one table, and that row to the value
/// written. One that fails before the commit changes nothing.
pub proof fn law_a_write_changes_one_row(
    before: Tables,
    after: Tables,
    table: Table,
    key: Seq<char>,
    cell: Cell,
    r: Result<(), CacheError>,
)
    requires
        written(before, after, table, key, cell, r),
    ensures
        r is Ok ==> after.contains_key(table.spec_name()) && after[table.spec_name()].contains_key(
            key,
        ) && after[table.spec_name()][key] == cell,
        r is Ok ==> forall|name: Seq<char>, k: Seq<char>|
            (name, k) != (table.spec_name(), key) ==> (#[trigger] has_row(after, name, k)
                == has_row(before, name, k) && (has_row(before, name, k) ==> after[name][k]
                == before[name][k])),
        r is Err ==> r->Err_0 is Begin || r->Err_0 is Access || r->Err_0 is Commit,
        r is Err && !(r->Err_0 is Commit) ==> after == before,
{
}

/// The rows of a table are all that is in it; a table that is not there has none.
pub proof fn law_the_rows_of_a_table(tables: Tables, name: Seq<char>)
    ensures
        tables.contains_key(name) ==> rows(tables, name) == tables[name],
        !tables.contains_key(name) ==> rows(tables, name) == Map::<Seq<char>, Cell>::empty(),
{
}

/// There is a row for `key` in the table called `name`.
pub open spec fn has_row(tables: Tables, name: Seq<char>, key: Seq<char>) -> bool {
    tables.contains_key(name) && tables[name].contains_key(key)
}

/// Opening keeps every table and every row that was there, and adds none.
pub proof fn law_opening_keeps_every_row(before: Tables, after: Tables)
    requires
        adds_only_tables(before, after),
    ensures
        forall|name: Seq<char>| #[trigger]
            before.contains_key(name) ==> after.contains_key(name) && after[name] == before[name],
        forall|name: Seq<char>, key: Seq<char>| #[trigger]
            has_row(after, name, key) ==> has_row(before, name, key),
        forall|table: Table, key: Seq<char>| #[trigger]
            lookup(after, table, key) == lookup(before, table, key),
{
    assert forall|name: Seq<char>| #[trigger] before.contains_key(name) implies after.contains_key(
        name,
    ) && after[name] == before[name] by {
        assert(rows(after, name) == rows(before, name));
    }
    assert forall|name: Seq<char>, key: Seq<char>| #[trigger] has_row(
        after,
        name,
        key,
    ) implies has_row(before, name, key) by {
        assert(rows(after, name) == rows(before, name));
    }
    assert forall|table: Table, key: Seq<char>| #[trigger] lookup(after, table, key) == lookup(
        before,
        table,
        key,
    ) by {
        assert(rows(after, table.spec_name()) == rows(before, table.spec_name()));
    }
}

/// In a cache every table is there, and every value in it is of the table's kind.
pub proof fn law_a_schema_has_every_table(tables: Tables, table: Table, key: Seq<char>)
    requires
        has_schema(tables),
    ensures
        tables.contains_key(table.spec_name()),
        tables[table.spec_name()].contains_key(key) ==> tables[table.spec_name()][key].kind()
            == table.spec_kind(),
{
    assert(has_table(tables, table));
    if tables[table.spec_name()].contains_key(key) {
        assert(rows(tables, table.spec_name()).contains_key(key));
    }
}

/// The ledger is one row a month: what is spent is the count in it, and nothing
/// where there is none. Recording a number of calls changes that row alone.
pub proof fn law_the_ledger_is_one_row_a_month(
    tables: Tables,
    month: Seq<char>,
    n: u64,
    table: Table,
    key: Seq<char>,
)
    ensures
        ({
            let name = Table::JamendoQuota.spec_name();
            &&& !has_row(tables, name, month) ==> spent(tables, month) == 0
            &&& has_row(tables, name, month) && tables[name][month] is Count ==> spent(
                tables,
                month,
            ) == tables[name][month]->Count_0
            &&& has_row(with_spent(tables, month, n), name, month)
            &&& with_spent(tables, month, n)[name][month] == Cell::Count(n)
            &&& spent(with_spent(tables, month, n), month) == n
            &&& (table, key) != (Table::JamendoQuota, month) ==> lookup(
                with_spent(tables, month, n),
                table,
                key,
            ) == lookup(tables, table, key)
        }),
{
    if (table, key) != (Table::JamendoQuota, month) {
        law_a_write_touches_nothing_else(
            tables,
            Table::JamendoQuota,
            month,
            Cell::Count(n),
            table,
            key,
        );
    }
}

/// A read gives back what was written.
pub proof fn law_a_read_gives_back_a_write(
    tables: Tables,
    table: Table,
    key: Seq<char>,
    cell: Cell,
)
    ensures
        lookup(store(tables, table, key, cell), table, key) == Some(cell),
{
}

/// A write touches nothing but its own key of its own table: the same key in
/// another table is another entry.
pub proof fn law_a_write_touches_nothing_else(
    tables: Tables,
    table: Table,
    key: Seq<char>,
    cell: Cell,
    other_table: Table,
    other_key: Seq<char>,
)
    requires
        (other_table, other_key) != (table, key),
    ensures
        lookup(store(tables, table, key, cell), other_table, other_key) == lookup(
            tables,
            other_table,
            other_key,
        ),
{
    law_names_are_distinct(table, other_table);
}

/// A write replaces what was written before: of two in a row the second stands.
pub proof fn law_a_write_overwrites(
    tables: Tables,
    table: Table,
    key: Seq<char>,
    first: Cell,
    second: Cell,
)
    ensures
        store(store(tables, table, key, first), table, key, second) == store(
            tables,
            table,
            key,
            second,
        ),
{
    let name = table.spec_name();
    assert(rows(tables, name).insert(key, first).insert(key, second) =~= rows(tables, name).insert(
        key,
        second,
    ));
    assert(store(store(tables, table, key, first), table, key, second) =~= store(
        tables,
        table,
        key,
        second,
    ));
}

/// Writing a value of a table's own kind keeps every table in place.
pub proof fn law_a_write_keeps_the_schema(
    tables: Tables,
    table: Table,
    key: Seq<char>,
    cell: Cell,
)
    requires
        has_schema(tables),
        cell.kind() == table.spec_kind(),
    ensures
        has_schema(store(tables, table, key, cell)),
{
    let after = store(tables, table, key, cell);
    assert forall|t: Table| #[trigger] has_table(after, t) by {
        law_names_are_distinct(table, t);
        assert(has_table(tables, t));
        let name = t.spec_name();
        assert forall|k: Seq<char>| #[trigger] rows(after, name).contains_key(k) implies rows(
            after,
            name,
        )[k].kind() == t.spec_kind() by {
            if t != table || k != key {
                assert(rows(tables, name).contains_key(k));
            }
        }
    }
}

/// Opening a cache that has all its tables changes nothing.
pub proof fn law_reopening_changes_nothing(before: Tables, after: Tables)
    requires
        has_schema(before),
        adds_only_tables(before, after),
    ensures
        after == before,
{
    assert forall|name: Seq<char>| after.contains_key(name) == #[trigger] before.contains_key(
        name,
    ) && (before.contains_key(name) ==> after[name] == before[name]) by {
        assert(rows(after, name) == rows(before, name));
        if after.contains_key(name) && !before.contains_key(name) {
            let table = choose|table: Table| #[trigger] table.spec_name() == name;
            assert(is_table_name(name));
            assert(has_table(before, table));
        }
    }
    assert(after =~= before);
}

/// A cache in a database that held nothing holds nothing: in every table no key is
/// mapped to anything, there are no entries, and nothing is spent.
pub proof fn law_a_fresh_cache_is_empty(opened: Tables, table: Table, key: Seq<char>)
    requires
        adds_only_tables(Map::empty(), opened),
    ensures
        lookup(opened, table, key) is None,
        rows(opened, table.spec_name()).len() == 0,
        spent(opened, key) == 0,
{
    let none = Map::<Seq<char>, Rows>::empty();
    assert(rows(opened, table.spec_name()) == rows(none, table.spec_name()));
    assert(rows(opened, Table::JamendoQuota.spec_name()) == rows(
        none,
        Table::JamendoQuota.spec_name(),
    ));
}

/// The entries of a table are its distinct keys: a write adds one where the key
/// is new, none where it overwrites, and none to any other table.
pub proof fn law_entries_count_distinct_keys(
    tables: Tables,
    table: Table,
    key: Seq<char>,
    cell: Cell,
    counted: Table,
)
    requires
        rows(tables, counted.spec_name()).dom().finite(),
    ensures
        rows(store(tables, table, key, cell), counted.spec_name()).dom().finite(),
        rows(store(tables, table, key, cell), counted.spec_name()).len() == rows(
            tables,
            counted.spec_name(),
        ).len() + if counted == table && lookup(tables, table, key) is None {
            1nat
        } else {
            0
        },
{
    law_names_are_distinct(table, counted);
    let before = rows(tables, counted.spec_name());
    if counted == table {
        assert(before.insert(key, cell).dom() =~= before.dom().insert(key));
        if before.contains_key(key) {
            assert(before.dom().insert(key) =~= before.dom());
        }
    }
}

// ---- what redb refuses ----

/// A read of text fails only where redb fails on that very read: the error is what
/// redb gave for reading that key of that table with values of its kind, in a
/// transaction that it gave for that cache.
pub(super) proof fn law_a_read_of_text_fails_only_where_redb_does(
    cache: MidhashCache,
    table: Table,
    key: Seq<char>,
    e: redb::Error,
)
    requires
        table.spec_kind() == Kind::Text,
        read_refused(cache, table, key, CacheError::Access(e)),
    ensures
        exists|tx: ReadTransaction, n: &str, k: &str|
            n@ == table.spec_name() && k@ == key && call_ensures(
                begin_read,
                (&cache.db,),
                Ok::<ReadTransaction, redb::Error>(tx),
            ) && #[trigger] call_ensures(
                read_text,
                (&tx, n, k),
                Err::<Option<String>, redb::Error>(e),
            ),
{
    let (tx, n, k) = choose|tx: ReadTransaction, n: &str, k: &str|
        n@ == table.spec_name() && k@ == key && reads(tx, cache) && #[trigger] read_gave(
            tx,
            n,
            k,
            table.spec_kind(),
            e,
        );
    assert(read_gave(tx, n, k, Kind::Text, e));
    assert(call_ensures(read_text, (&tx, n, k), Err::<Option<String>, redb::Error>(e)));
}

/// A read of bytes fails only where redb fails on that very read: the error is what
/// redb gave for reading that key of that table with values of its kind, in a
/// transaction that it gave for that cache.
pub(super) proof fn law_a_read_of_bytes_fails_only_where_redb_does(
    cache: MidhashCache,
    table: Table,
    key: Seq<char>,
    e: redb::Error,
)
    requires
        table.spec_kind() == Kind::Blob,
        read_refused(cache, table, key, CacheError::Access(e)),
    ensures
        exists|tx: ReadTransaction, n: &str, k: &str|
            n@ == table.spec_name() && k@ == key && call_ensures(
                begin_read,
                (&cache.db,),
                Ok::<ReadTransaction, redb::Error>(tx),
            ) && #[trigger] call_ensures(
                read_blob,
                (&tx, n, k),
                Err::<Option<Vec<u8>>, redb::Error>(e),
            ),
{
    let (tx, n, k) = choose|tx: ReadTransaction, n: &str, k: &str|
        n@ == table.spec_name() && k@ == key && reads(tx, cache) && #[trigger] read_gave(
            tx,
            n,
            k,
            table.spec_kind(),
            e,
        );
    assert(read_gave(tx, n, k, Kind::Blob, e));
    assert(call_ensures(read_blob, (&tx, n, k), Err::<Option<Vec<u8>>, redb::Error>(e)));
}

/// A read of a count fails only where redb fails on that very read: the error is what
/// redb gave for reading that key of that table with values of its kind, in a
/// transaction that it gave for that cache.
pub(super) proof fn law_a_read_of_a_count_fails_only_where_redb_does(
    cache: MidhashCache,
    table: Table,
    key: Seq<char>,
    e: redb::Error,
)
    requires
        table.spec_kind() == Kind::Count,
        read_refused(cache, table, key, CacheError::Access(e)),
    ensures
        exists|tx: ReadTransaction, n: &str, k: &str|
            n@ == table.spec_name() && k@ == key && call_ensures(
                begin_read,
                (&cache.db,),
                Ok::<ReadTransaction, redb::Error>(tx),
            ) && #[trigger] call_ensures(
                read_count,
                (&tx, n, k),
                Err::<Option<u64>, redb::Error>(e),
            ),
{
    let (tx, n, k) = choose|tx: ReadTransaction, n: &str, k: &str|
        n@ == table.spec_name() && k@ == key && reads(tx, cache) && #[trigger] read_gave(
            tx,
            n,
            k,
            table.spec_kind(),
            e,
        );
    assert(read_gave(tx, n, k, Kind::Count, e));
    assert(call_ensures(read_count, (&tx, n, k), Err::<Option<u64>, redb::Error>(e)));
}

/// A read has no error but those of redb: one that cannot begin, or one of the read.
pub(super) proof fn law_a_read_has_no_error_of_its_own(
    cache: MidhashCache,
    table: Table,
    key: Seq<char>,
    e: CacheError,
)
    requires
        read_refused(cache, table, key, e),
    ensures
        e is Begin || e is Access,
        e is Begin ==> call_ensures(
            begin_read,
            (&cache.db,),
            Err::<ReadTransaction, redb::Error>(e->Begin_0),
        ),
{
}

/// Where redb is sound, a read succeeds and gives the row: if redb refuses neither
/// to begin reading the cache nor to read that key of that table, the result is
/// what is there.
pub(super) proof fn law_a_sound_read_of_text_gives_the_row(
    cache: MidhashCache,
    table: Table,
    key: Seq<char>,
    r: Result<Option<String>, CacheError>,
)
    requires
        table.spec_kind() == Kind::Text,
        r matches Ok(value) ==> found_text(value) == lookup(cache@, table, key),
        r matches Err(e) ==> read_refused(cache, table, key, e),
        forall|e: redb::Error|
            !#[trigger] call_ensures(
                begin_read,
                (&cache.db,),
                Err::<ReadTransaction, redb::Error>(e),
            ),
        forall|tx: ReadTransaction, n: &str, k: &str, e: redb::Error|
            n@ == table.spec_name() && k@ == key ==> !#[trigger] call_ensures(
                read_text,
                (&tx, n, k),
                Err::<Option<String>, redb::Error>(e),
            ),
    ensures
        r is Ok,
        r->Ok_0 is Some <==> has_row(cache@, table.spec_name(), key),
        r->Ok_0 is Some ==> cache@[table.spec_name()][key] == Cell::Text(r->Ok_0->0@),
{
    if let Err(e) = r {
        law_a_read_has_no_error_of_its_own(cache, table, key, e);
        if let CacheError::Access(e) = e {
            law_a_read_of_text_fails_only_where_redb_does(cache, table, key, e);
        }
    } else {
        law_a_read_of_text_is_the_row(cache@, table, key, r->Ok_0);
    }
}

/// A write of text fails only where redb fails on that very write: in beginning it,
/// in mapping that key of that table to that text, or in the commit of just that.
pub(super) proof fn law_a_write_of_text_fails_only_where_redb_does(
    cache: MidhashCache,
    table: Table,
    key: Seq<char>,
    text: Seq<char>,
    e: redb::Error,
)
    ensures
        write_refused(cache, table, key, Cell::Text(text), CacheError::Begin(e)) ==> exists|
            c: &mut MidhashCache,
        |
            *c == cache && #[trigger] call_ensures(
                begin_write,
                (c,),
                Err::<Writer<'_>, redb::Error>(e),
            ),
        write_refused(cache, table, key, Cell::Text(text), CacheError::Access(e)) ==> exists|
            w: Writer<'_>,
            n: &str,
            k: &str,
            v: &str,
        |
            sees(w) == cache@ && n@ == table.spec_name() && k@ == key && v@ == text
                && #[trigger] call_ensures(
                insert_text,
                (w, n, k, v),
                Err::<Writer<'_>, redb::Error>(e),
            ),
        write_refused(cache, table, key, Cell::Text(text), CacheError::Commit(e)) ==> exists|
            w: Writer<'_>,
        |
            sees(w) == store(cache@, table, key, Cell::Text(text)) && #[trigger] call_ensures(
                commit,
                (w,),
                Err::<(), redb::Error>(e),
            ),
        !write_refused(cache, table, key, Cell::Text(text), CacheError::Open(e)),
        !write_refused(cache, table, key, Cell::Text(text), CacheError::Abort(e)),
{
    if write_refused(cache, table, key, Cell::Text(text), CacheError::Access(e)) {
        let (w, n, k) = choose|w: Writer<'_>, n: &str, k: &str|
            sees(w) == cache@ && n@ == table.spec_name() && k@ == key && #[trigger] insert_gave(
                w,
                n,
                k,
                Cell::Text(text),
                e,
            );
        let v = choose|v: &str|
            v@ == text && #[trigger] call_ensures(
                insert_text,
                (w, n, k, v),
                Err::<Writer<'_>, redb::Error>(e),
            );
        assert(call_ensures(insert_text, (w, n, k, v), Err::<Writer<'_>, redb::Error>(e)));
    }
}

/// A write of bytes fails only where redb fails on that very write, as a write of
/// text does.
pub(super) proof fn law_a_write_of_bytes_fails_only_where_redb_does(
    cache: MidhashCache,
    table: Table,
    key: Seq<char>,
    bytes: Seq<u8>,
    e: redb::Error,
)
    ensures
        write_refused(cache, table, key, Cell::Blob(bytes), CacheError::Begin(e)) ==> exists|
            c: &mut MidhashCache,
        |
            *c == cache && #[trigger] call_ensures(
                begin_write,
                (c,),
                Err::<Writer<'_>, redb::Error>(e),
            ),
        write_refused(cache, table, key, Cell::Blob(bytes), CacheError::Access(e)) ==> exists|
            w: Writer<'_>,
            n: &str,
            k: &str,
            v: &[u8],
        |
            sees(w) == cache@ && n@ == table.spec_name() && k@ == key && v@ == bytes
                && #[trigger] call_ensures(
                insert_blob,
                (w, n, k, v),
                Err::<Writer<'_>, redb::Error>(e),
            ),
        write_refused(cache, table, key, Cell::Blob(bytes), CacheError::Commit(e)) ==> exists|
            w: Writer<'_>,
        |
            sees(w) == store(cache@, table, key, Cell::Blob(bytes)) && #[trigger] call_ensures(
                commit,
                (w,),
                Err::<(), redb::Error>(e),
            ),
        !write_refused(cache, table, key, Cell::Blob(bytes), CacheError::Open(e)),
        !write_refused(cache, table, key, Cell::Blob(bytes), CacheError::Abort(e)),
{
    if write_refused(cache, table, key, Cell::Blob(bytes), CacheError::Access(e)) {
        let (w, n, k) = choose|w: Writer<'_>, n: &str, k: &str|
            sees(w) == cache@ && n@ == table.spec_name() && k@ == key && #[trigger] insert_gave(
                w,
                n,
                k,
                Cell::Blob(bytes),
                e,
            );
        let v = choose|v: &[u8]|
            v@ == bytes && #[trigger] call_ensures(
                insert_blob,
                (w, n, k, v),
                Err::<Writer<'_>, redb::Error>(e),
            );
        assert(call_ensures(insert_blob, (w, n, k, v), Err::<Writer<'_>, redb::Error>(e)));
    }
}

/// An opened cache holds what the file held: redb gave a database for the path, and
/// in every table every key is mapped to what it was mapped to in that database.
pub(super) proof fn law_an_opened_cache_holds_what_the_file_held(path: PathBuf, opened: Tables)
    requires
        exists|db: Database| #[trigger]
            opened_at(path, db) && adds_only_tables(committed(db), opened),
    ensures
        exists|db: Database| #[trigger]
            call_ensures(create_database, (&path,), Ok::<Database, redb::Error>(db)) && (forall|
                table: Table,
                key: Seq<char>,
            | #[trigger]
                lookup(opened, table, key) == lookup(committed(db), table, key)) && (forall|
                name: Seq<char>,
            | #[trigger]
                committed(db).contains_key(name) ==> opened.contains_key(name) && opened[name]
                    == committed(db)[name]),
{
    let db = choose|db: Database| #[trigger]
        opened_at(path, db) && adds_only_tables(committed(db), opened);
    law_opening_keeps_every_row(committed(db), opened);
    assert(call_ensures(create_database, (&path,), Ok::<Database, redb::Error>(db)));
}

/// Opening fails only where redb fails: on the file, or in setting up the tables in
/// the database that it gave for that file.
pub(super) proof fn law_opening_fails_only_where_redb_does(path: PathBuf, e: CacheError)
    requires
        open_refused(path, e),
    ensures
        e is Open ==> call_ensures(
            create_database,
            (&path,),
            Err::<Database, redb::Error>(e->Open_0),
        ),
        !(e is Open) ==> exists|db: Database| #[trigger]
            call_ensures(create_database, (&path,), Ok::<Database, redb::Error>(db))
                && setup_refused(db, e),
{
    if !(e is Open) {
        let db = choose|db: Database| #[trigger] opened_at(path, db) && setup_refused(db, e);
        assert(call_ensures(create_database, (&path,), Ok::<Database, redb::Error>(db)));
    }
}

/// Setting a cache up fails only where redb fails: in beginning, in opening one of
/// the cache's own tables with values of its kind, or in the commit of all of them.
pub(super) proof fn law_setting_up_fails_only_where_redb_does(db: Database, e: redb::Error)
    ensures
        setup_refused(db, CacheError::Begin(e)) ==> exists|c: &mut MidhashCache|
            c.db == db && #[trigger] call_ensures(
                begin_write,
                (c,),
                Err::<Writer<'_>, redb::Error>(e),
            ),
        setup_refused(db, CacheError::Access(e)) ==> exists|
            w: Writer<'_>,
            n: &str,
            table: Table,
        |
            adds_only_tables(committed(db), #[trigger] sees(w)) && #[trigger] n@
                == #[trigger] table.spec_name() && match table.spec_kind() {
                Kind::Text => call_ensures(
                    create_text_table,
                    (w, n),
                    Err::<Writer<'_>, redb::Error>(e),
                ),
                Kind::Blob => call_ensures(
                    create_blob_table,
                    (w, n),
                    Err::<Writer<'_>, redb::Error>(e),
                ),
                Kind::Count => call_ensures(
                    create_count_table,
                    (w, n),
                    Err::<Writer<'_>, redb::Error>(e),
                ),
            },
        setup_refused(db, CacheError::Commit(e)) ==> exists|w: Writer<'_>|
            has_schema(sees(w)) && adds_only_tables(committed(db), sees(w))
                && #[trigger] call_ensures(commit, (w,), Err::<(), redb::Error>(e)),
        !setup_refused(db, CacheError::Open(e)),
        !setup_refused(db, CacheError::Abort(e)),
{
    if setup_refused(db, CacheError::Access(e)) {
        let (w, n, table) = choose|w: Writer<'_>, n: &str, table: Table|
            adds_only_tables(committed(db), sees(w)) && n@ == table.spec_name()
                && #[trigger] open_table_gave(w, n, table.spec_kind(), e);
        assert(open_table_gave(w, n, table.spec_kind(), e));
    }
}

// ---- quota ----

/// The ledger after one attempt to spend.
pub open spec fn after_spend(tables: Tables, month: Seq<char>, budget: u64) -> Tables {
    if spent(tables, month) < budget {
        with_spent(tables, month, (spent(tables, month) + 1) as u64)
    } else {
        tables
    }
}

/// Spending touches no other table.
pub proof fn law_spending_touches_no_other_table(
    tables: Tables,
    month: Seq<char>,
    budget: u64,
    table: Table,
    key: Seq<char>,
)
    requires
        table != Table::JamendoQuota,
    ensures
        lookup(after_spend(tables, month, budget), table, key) == lookup(tables, table, key),
{
    law_a_write_touches_nothing_else(
        tables,
        Table::JamendoQuota,
        month,
        Cell::Count((spent(tables, month) + 1) as u64),
        table,
        key,
    );
}

// ---- histories ----

/// What happens to a cache: a write of a value, an attempt to spend, or that it is
/// opened again, with the tables that are then found. Reads change nothing.
pub enum Operation {
    Write { table: Table, key: Seq<char>, cell: Cell },
    Spend { month: Seq<char>, budget: u64 },
    Reopen { found: Tables },
}

impl Operation {
    /// The tables afterwards.
    pub open spec fn apply(self, tables: Tables) -> Tables {
        match self {
            Operation::Write { table, key, cell } => store(tables, table, key, cell),
            Operation::Spend { month, budget } => after_spend(tables, month, budget),
            Operation::Reopen { found } => found,
        }
    }

    /// Only spending writes to the ledger, and opening adds tables alone.
    pub open spec fn is_possible(self, tables: Tables) -> bool {
        match self {
            Operation::Write { table, .. } => table != Table::JamendoQuota,
            Operation::Spend { .. } => true,
            Operation::Reopen { found } => adds_only_tables(tables, found),
        }
    }

    /// Whether it may change what `key` is mapped to in `table`.
    pub open spec fn touches(self, table: Table, key: Seq<char>) -> bool {
        match self {
            Operation::Write { table: t, key: k, .. } => t == table && k == key,
            Operation::Spend { month, .. } => table == Table::JamendoQuota && key == month,
            Operation::Reopen { .. } => false,
        }
    }

    /// Whether it is an attempt to spend in `month` that is allowed.
    pub open spec fn is_allowed(self, tables: Tables, month: Seq<char>) -> bool {
        self matches Operation::Spend { month: m, budget } && m == month && spent(tables, month)
            < budget
    }

    /// If it is an attempt to spend in `month`, its budget is at most `limit`.
    pub open spec fn is_within(self, month: Seq<char>, limit: u64) -> bool {
        match self {
            Operation::Spend { month: m, budget } => m == month ==> budget <= limit,
            _ => true,
        }
    }
}

/// The tables after all of `history`, in order.
pub open spec fn after(tables: Tables, history: Seq<Operation>) -> Tables
    decreases history.len(),
{
    if history.len() == 0 {
        tables
    } else {
        history.last().apply(after(tables, history.drop_last()))
    }
}

/// `history` can happen to a cache that has `tables`.
pub open spec fn is_history(tables: Tables, history: Seq<Operation>) -> bool
    decreases history.len(),
{
    history.len() > 0 ==> is_history(tables, history.drop_last()) && history.last().is_possible(
        after(tables, history.drop_last()),
    )
}

/// How many attempts to spend in `month` are allowed.
pub open spec fn allowed(tables: Tables, history: Seq<Operation>, month: Seq<char>) -> int
    decreases history.len(),
{
    if history.len() == 0 {
        0
    } else {
        let before = after(tables, history.drop_last());
        allowed(tables, history.drop_last(), month) + if history.last().is_allowed(before, month) {
            1int
        } else {
            0
        }
    }
}

/// What an operation does not touch stays.
proof fn lemma_untouched(tables: Tables, operation: Operation, table: Table, key: Seq<char>)
    requires
        operation.is_possible(tables),
        !operation.touches(table, key),
    ensures
        lookup(operation.apply(tables), table, key) == lookup(tables, table, key),
{
    match operation {
        Operation::Write { table: t, key: k, cell } => {
            law_a_write_touches_nothing_else(tables, t, k, cell, table, key);
        },
        Operation::Spend { month, .. } => {
            law_a_write_touches_nothing_else(
                tables,
                Table::JamendoQuota,
                month,
                Cell::Count((spent(tables, month) + 1) as u64),
                table,
                key,
            );
        },
        Operation::Reopen { found } => {
            assert(rows(found, table.spec_name()) == rows(tables, table.spec_name()));
        },
    }
}

/// What nothing in a history touches is as it was.
pub proof fn law_what_is_not_written_stays(
    tables: Tables,
    history: Seq<Operation>,
    table: Table,
    key: Seq<char>,
)
    requires
        is_history(tables, history),
        forall|i: int| 0 <= i < history.len() ==> !(#[trigger] history[i]).touches(table, key),
    ensures
        lookup(after(tables, history), table, key) == lookup(tables, table, key),
    decreases history.len(),
{
    if history.len() > 0 {
        let rest = history.drop_last();
        assert forall|i: int| 0 <= i < rest.len() implies !(#[trigger] rest[i]).touches(
            table,
            key,
        ) by {
            assert(rest[i] == history[i]);
        }
        assert(!history[history.len() - 1].touches(table, key));
        law_what_is_not_written_stays(tables, rest, table, key);
        lemma_untouched(after(tables, rest), history.last(), table, key);
    }
}

/// The last write stands: a read gives it back whatever else happened since, to
/// other keys, to other tables or to the ledger, reopenings included.
pub proof fn law_the_last_write_stands(
    tables: Tables,
    history: Seq<Operation>,
    last: int,
    table: Table,
    key: Seq<char>,
    cell: Cell,
)
    requires
        is_history(tables, history),
        0 <= last < history.len(),
        history[last] == (Operation::Write { table, key, cell }),
        forall|i: int|
            last < i < history.len() ==> !(#[trigger] history[i]).touches(table, key),
    ensures
        lookup(after(tables, history), table, key) == Some(cell),
    decreases history.len(),
{
    let rest = history.drop_last();
    if last == history.len() - 1 {
        law_a_read_gives_back_a_write(after(tables, rest), table, key, cell);
    } else {
        assert(rest[last] == history[last]);
        assert forall|i: int| last < i < rest.len() implies !(#[trigger] rest[i]).touches(
            table,
            key,
        ) by {
            assert(rest[i] == history[i]);
        }
        assert(!history[history.len() - 1].touches(table, key));
        law_the_last_write_stands(tables, rest, last, table, key, cell);
        lemma_untouched(after(tables, rest), history.last(), table, key);
    }
}

/// The ledger is exact, month by month: through whatever happens to the cache,
/// reopenings included, what is spent grows by one with each attempt that is
/// allowed and never shrinks.
pub proof fn law_the_ledger_is_exact(tables: Tables, history: Seq<Operation>, month: Seq<char>)
    requires
        is_history(tables, history),
    ensures
        spent(after(tables, history), month) == spent(tables, month) + allowed(
            tables,
            history,
            month,
        ),
        spent(after(tables, history), month) >= spent(tables, month),
    decreases history.len(),
{
    if history.len() > 0 {
        let rest = history.drop_last();
        law_the_ledger_is_exact(tables, rest, month);
        let last = history.last();
        if !last.touches(Table::JamendoQuota, month) {
            lemma_untouched(after(tables, rest), last, Table::JamendoQuota, month);
        }
    }
}

/// Since the file was created: what is spent is the number of attempts that were
/// allowed.
pub proof fn law_the_ledger_counts_from_creation(
    opened: Tables,
    history: Seq<Operation>,
    month: Seq<char>,
)
    requires
        adds_only_tables(Map::empty(), opened),
        is_history(opened, history),
    ensures
        spent(after(opened, history), month) == allowed(opened, history, month),
{
    law_a_fresh_cache_is_empty(opened, Table::JamendoQuota, month);
    law_the_ledger_is_exact(opened, history, month);
}

/// A budget is never overspent: what is spent in a month never grows past the
/// largest budget that the month was held against.
pub proof fn law_a_budget_is_never_overspent(
    tables: Tables,
    history: Seq<Operation>,
    month: Seq<char>,
    limit: u64,
)
    requires
        is_history(tables, history),
        spent(tables, month) <= limit,
        forall|i: int|
            0 <= i < history.len() ==> (#[trigger] history[i]).is_within(month, limit),
    ensures
        spent(after(tables, history), month) <= limit,
    decreases history.len(),
{
    if history.len() > 0 {
        let rest = history.drop_last();
        let last = history.last();
        assert(history[history.len() - 1].is_within(month, limit));
        assert forall|i: int| 0 <= i < rest.len() implies (#[trigger] rest[i]).is_within(
            month,
            limit,
        ) by {
            assert(rest[i] == history[i]);
        }
        law_a_budget_is_never_overspent(tables, rest, month, limit);
        if !last.touches(Table::JamendoQuota, month) {
            lemma_untouched(after(tables, rest), last, Table::JamendoQuota, month);
        }
    }
}

// ---- search keys ----

/// `s` is made of whitespace alone.
pub open spec fn is_gap(s: Seq<char>) -> bool {
    forall|i: int| 0 <= i < s.len() ==> is_white_space(#[trigger] s[i])
}

/// Whitespace at the end adds no word.
proof fn lemma_words_then_gap(a: Seq<char>, gap: Seq<char>)
    requires
        is_gap(gap),
    ensures
        words(a + gap) == words(a),
    decreases gap.len(),
{
    if gap.len() == 0 {
        assert(a + gap =~= a);
    } else {
        assert((a + gap).drop_last() =~= a + gap.drop_last());
        assert((a + gap).last() == gap[gap.len() - 1]);
        lemma_words_then_gap(a, gap.drop_last());
    }
}

/// Whitespace parts words.
proof fn lemma_words_around_gap(a: Seq<char>, gap: Seq<char>, b: Seq<char>)
    requires
        is_gap(gap),
        gap.len() > 0 || a.len() == 0,
    ensures
        words(a + gap + b) == words(a) + words(b),
    decreases b.len(),
{
    let s = a + gap + b;
    if b.len() == 0 {
        assert(s =~= a + gap);
        lemma_words_then_gap(a, gap);
        assert(words(a) + words(b) =~= words(a));
    } else {
        let c = b.last();
        let rest = b.drop_last();
        assert(s.drop_last() =~= a + gap + rest);
        assert(s.last() == c);
        lemma_words_around_gap(a, gap, rest);
        if !is_white_space(c) {
            if b.len() > 1 {
                assert(s[s.len() - 2] == b[b.len() - 2]);
                if !is_white_space(b[b.len() - 2]) {
                    assert(rest.last() == b[b.len() - 2]);
                    lemma_words(rest);
                    let (wa, wr) = (words(a), words(rest));
                    assert((wa + wr).last() == wr.last());
                    assert((wa + wr).drop_last().push(wr.last().push(c)) =~= wa
                        + wr.drop_last().push(wr.last().push(c)));
                } else {
                    assert((words(a) + words(rest)).push(seq![c]) =~= words(a) + words(rest).push(
                        seq![c],
                    ));
                }
            } else {
                if s.len() > 1 {
                    assert(s[s.len() - 2] == gap[gap.len() - 1]);
                }
                assert(words(rest) =~= Seq::empty());
                assert((words(a) + words(rest)).push(seq![c]) =~= words(a) + words(rest).push(
                    seq![c],
                ));
            }
        }
    }
}

/// Whitespace is not significant: neither how much there is around the text nor
/// how much there is between two words of it.
pub proof fn law_white_space_is_not_significant(
    before: Seq<char>,
    a: Seq<char>,
    gap: Seq<char>,
    other_gap: Seq<char>,
    b: Seq<char>,
    after: Seq<char>,
)
    requires
        is_gap(before),
        is_gap(gap),
        is_gap(other_gap),
        is_gap(after),
        gap.len() > 0,
        other_gap.len() > 0,
    ensures
        collapsed(before + (a + gap + b) + after) == collapsed(a + other_gap + b),
        normalised(before + (a + gap + b) + after) == normalised(a + other_gap + b),
{
    let s = a + gap + b;
    let e = Seq::<char>::empty();
    lemma_words_then_gap(before + s, after);
    lemma_words_around_gap(e, before, s);
    assert(e + before + s =~= before + s);
    assert(words(e) + words(s) =~= words(s));
    lemma_words_around_gap(a, gap, b);
    lemma_words_around_gap(a, other_gap, b);
}

/// Small letters fall on the words one by one.
proof fn lemma_words_of_lowercase(s: Seq<char>)
    ensures
        words(to_ascii_lowercase(s)) == words(s).map_values(|w: Seq<char>| to_ascii_lowercase(w)),
    decreases s.len(),
{
    let f = |w: Seq<char>| to_ascii_lowercase(w);
    let l = to_ascii_lowercase(s);
    if s.len() == 0 {
        assert(words(l) =~= words(s).map_values(f));
    } else {
        let c = s.last();
        assert(l.drop_last() =~= to_ascii_lowercase(s.drop_last()));
        assert(l.last() == ascii_lower(c));
        lemma_words_of_lowercase(s.drop_last());
        lemma_words(s.drop_last());
        let before = words(s.drop_last());
        if is_white_space(c) {
        } else if s.len() > 1 && !is_white_space(s[s.len() - 2]) {
            assert(s.drop_last().last() == s[s.len() - 2]);
            let w = before.last();
            assert(to_ascii_lowercase(w.push(c)) =~= to_ascii_lowercase(w).push(ascii_lower(c)));
            assert(words(s).map_values(f) =~= before.map_values(f).drop_last().push(
                before.map_values(f).last().push(ascii_lower(c)),
            ));
        } else {
            assert(to_ascii_lowercase(seq![c]) =~= seq![ascii_lower(c)]);
            assert(words(s).map_values(f) =~= before.map_values(f).push(seq![ascii_lower(c)]));
        }
    }
}

/// Small letters fall on a joined text word by word.
proof fn lemma_joined_of_lowercase(w: Seq<Seq<char>>)
    ensures
        joined(w.map_values(|w: Seq<char>| to_ascii_lowercase(w))) == to_ascii_lowercase(joined(w)),
    decreases w.len(),
{
    let f = |w: Seq<char>| to_ascii_lowercase(w);
    if w.len() == 0 {
        assert(to_ascii_lowercase(joined(w)) =~= Seq::empty());
    } else if w.len() > 1 {
        lemma_joined_of_lowercase(w.drop_last());
        assert(w.map_values(f).drop_last() =~= w.drop_last().map_values(f));
        assert(to_ascii_lowercase(joined(w.drop_last()) + seq![' '] + w.last())
            =~= to_ascii_lowercase(joined(w.drop_last())) + seq![' '] + to_ascii_lowercase(
            w.last(),
        ));
    }
}

/// Case and whitespace can be normalised in either order.
proof fn lemma_collapsed_of_lowercase(s: Seq<char>)
    ensures
        collapsed(to_ascii_lowercase(s)) == to_ascii_lowercase(collapsed(s)),
{
    lemma_words_of_lowercase(s);
    lemma_joined_of_lowercase(words(s));
}

/// `w` is a word: not empty, and without whitespace.
spec fn is_word(w: Seq<char>) -> bool {
    w.len() > 0 && forall|i: int| 0 <= i < w.len() ==> !is_white_space(#[trigger] w[i])
}

proof fn lemma_words_are_words(s: Seq<char>)
    ensures
        forall|i: int| 0 <= i < words(s).len() ==> is_word(#[trigger] words(s)[i]),
    decreases s.len(),
{
    if s.len() > 0 {
        lemma_words_are_words(s.drop_last());
        lemma_words(s.drop_last());
        let before = words(s.drop_last());
        let c = s.last();
        if !is_white_space(c) {
            if s.len() > 1 && !is_white_space(s[s.len() - 2]) {
                assert(s.drop_last().last() == s[s.len() - 2]);
                assert(is_word(before.last()));
                assert(is_word(before.last().push(c)));
            } else {
                assert(is_word(seq![c]));
            }
        }
    }
}

proof fn lemma_words_of_word(w: Seq<char>)
    requires
        is_word(w),
    ensures
        words(w) == seq![w],
    decreases w.len(),
{
    if w.len() > 1 {
        assert(is_word(w.drop_last()));
        lemma_words_of_word(w.drop_last());
        assert(w.drop_last().push(w.last()) =~= w);
        assert(words(w) =~= seq![w]);
    } else {
        assert(words(w.drop_last()) =~= Seq::empty());
        assert(seq![w.last()] =~= w);
        assert(words(w) =~= seq![w]);
    }
}

proof fn lemma_words_of_joined(w: Seq<Seq<char>>)
    requires
        forall|i: int| 0 <= i < w.len() ==> is_word(#[trigger] w[i]),
    ensures
        words(joined(w)) == w,
    decreases w.len(),
{
    if w.len() == 0 {
        assert(words(joined(w)) =~= w);
    } else if w.len() == 1 {
        lemma_words_of_word(w[0]);
        assert(seq![w[0]] =~= w);
    } else {
        lemma_words_of_joined(w.drop_last());
        lemma_words_of_word(w.last());
        lemma_words_around_gap(joined(w.drop_last()), seq![' '], w.last());
        assert(w.drop_last() + seq![w.last()] =~= w);
    }
}

/// Normalising whitespace twice is normalising it once.
pub proof fn law_collapsing_is_idempotent(text: Seq<char>)
    ensures
        collapsed(collapsed(text)) == collapsed(text),
        normalised(collapsed(text)) == normalised(text),
{
    lemma_words_are_words(text);
    lemma_words_of_joined(words(text));
}

/// `s` without its whitespace.
pub open spec fn without_white_space(s: Seq<char>) -> Seq<char>
    decreases s.len(),
{
    if s.len() == 0 {
        Seq::empty()
    } else if is_white_space(s.last()) {
        without_white_space(s.drop_last())
    } else {
        without_white_space(s.drop_last()).push(s.last())
    }
}

proof fn lemma_without_white_space_push(s: Seq<char>, c: char)
    ensures
        without_white_space(s.push(c)) == if is_white_space(c) {
            without_white_space(s)
        } else {
            without_white_space(s).push(c)
        },
{
    assert(s.push(c).drop_last() =~= s);
}

/// Collapsing whitespace drops nothing but whitespace and changes no character:
/// in any script, the text keeps what is not whitespace, in order.
pub proof fn law_collapsing_drops_only_white_space(text: Seq<char>)
    ensures
        without_white_space(collapsed(text)) == without_white_space(text),
    decreases text.len(),
{
    if text.len() > 0 {
        let rest = text.drop_last();
        let c = text.last();
        law_collapsing_drops_only_white_space(rest);
        lemma_words(rest);
        let j = joined(words(rest));
        if !is_white_space(c) {
            if text.len() > 1 && !is_white_space(text[text.len() - 2]) {
                assert(rest.last() == text[text.len() - 2]);
                lemma_joined_grows(words(rest), c);
                lemma_without_white_space_push(j, c);
            } else {
                lemma_joined_push(words(rest), seq![c]);
                if words(rest).len() == 0 {
                    assert(seq![c] =~= j.push(c));
                    lemma_without_white_space_push(j, c);
                } else {
                    assert(j + seq![' '] + seq![c] =~= j.push(' ').push(c));
                    lemma_without_white_space_push(j, ' ');
                    lemma_without_white_space_push(j.push(' '), c);
                }
            }
        }
    }
}

/// ASCII text stays ASCII when its whitespace is collapsed.
pub proof fn law_collapsing_keeps_ascii(text: Seq<char>)
    requires
        is_ascii(text),
    ensures
        is_ascii(collapsed(text)),
    decreases text.len(),
{
    if text.len() > 0 {
        let rest = text.drop_last();
        let c = text.last();
        assert(is_ascii(rest));
        law_collapsing_keeps_ascii(rest);
        lemma_words(rest);
        if !is_white_space(c) {
            if text.len() > 1 && !is_white_space(text[text.len() - 2]) {
                assert(rest.last() == text[text.len() - 2]);
                lemma_joined_grows(words(rest), c);
            } else {
                lemma_joined_push(words(rest), seq![c]);
            }
        }
    }
}

/// `s` has no whitespace around it, none but single spaces within.
pub open spec fn is_collapsed(s: Seq<char>) -> bool {
    &&& s.len() > 0 ==> !is_white_space(s[0]) && !is_white_space(s.last())
    &&& forall|i: int| 0 <= i < s.len() && is_white_space(#[trigger] s[i]) ==> s[i] == ' '
    &&& forall|i: int, j: int|
        0 <= i < j < s.len() && #[trigger] s[i] == ' ' && #[trigger] s[j] == ' ' ==> j > i + 1
}

proof fn lemma_joined_is_collapsed(w: Seq<Seq<char>>)
    requires
        forall|i: int| 0 <= i < w.len() ==> is_word(#[trigger] w[i]),
    ensures
        is_collapsed(joined(w)),
        joined(w).len() == 0 <==> w.len() == 0,
    decreases w.len(),
{
    if w.len() == 1 {
        assert(is_word(w[0]));
    } else if w.len() > 1 {
        lemma_joined_is_collapsed(w.drop_last());
        assert(is_word(w.last())) by {
            assert(w.last() == w[w.len() - 1]);
        }
        let (j, l, s) = (joined(w.drop_last()), w.last(), joined(w));
        let n = j.len() as int;
        assert(s == j + seq![' '] + l);
        assert(forall|i: int| 0 <= i < n ==> s[i] == j[i]);
        assert(s[n] == ' ');
        assert(forall|i: int| n < i < s.len() ==> s[i] == l[i - n - 1]);
        assert(s[n - 1] == j.last());
        assert(s.last() == l.last());
        assert forall|i: int, k: int|
            0 <= i < k < s.len() && #[trigger] s[i] == ' ' && #[trigger] s[k] == ' ' implies k > i
            + 1 by {
            assert(is_white_space(' '));
            if k > n {
                assert(!is_white_space(l[k - n - 1]));
            } else if k == n {
                assert(i != n - 1);
            } else {
                assert(j[i] == ' ' && j[k] == ' ');
            }
        }
    }
}

/// Text without words is blank.
proof fn lemma_no_words(s: Seq<char>)
    ensures
        words(s).len() == 0 <==> is_gap(s),
    decreases s.len(),
{
    if s.len() > 0 {
        let rest = s.drop_last();
        lemma_no_words(rest);
        lemma_words(s);
        assert(s.last() == s[s.len() - 1]);
        if is_white_space(s.last()) {
            if is_gap(rest) {
                assert forall|i: int| 0 <= i < s.len() implies is_white_space(#[trigger] s[i]) by {
                    if i < rest.len() {
                        assert(rest[i] == s[i]);
                    }
                }
            } else {
                let i = choose|i: int| 0 <= i < rest.len() && !is_white_space(#[trigger] rest[i]);
                assert(!is_white_space(s[i]));
            }
        }
    }
}

/// In any script: a collapsed text has no whitespace around it and only single
/// spaces within, and is empty exactly if the text is blank.
pub proof fn law_the_shape_of_a_collapsed_text(text: Seq<char>)
    ensures
        is_collapsed(collapsed(text)),
        collapsed(text).len() == 0 <==> is_gap(text),
{
    lemma_words_are_words(text);
    lemma_joined_is_collapsed(words(text));
    lemma_no_words(text);
}

/// Normalising a normalised text changes nothing, where the collapsed text is
/// ASCII: the normal form is its own, in whitespace and in case, and searching for
/// it gives the same key. It has the shape of a collapsed text and is empty exactly
/// if the text is blank.
pub proof fn law_normalising_is_idempotent(entity: Seq<char>, text: Seq<char>)
    requires
        is_ascii(collapsed(text)),
    ensures
        ({
            let n = to_ascii_lowercase(collapsed(text));
            &&& is_ascii(collapsed(n))
            &&& collapsed(n) == n
            &&& to_ascii_lowercase(n) == n
            &&& key_of(entity, to_ascii_lowercase(collapsed(n))) == key_of(entity, n)
            &&& is_collapsed(n)
            &&& n.len() == 0 <==> is_gap(text)
        }),
{
    let c = collapsed(text);
    let n = to_ascii_lowercase(c);
    law_collapsing_is_idempotent(text);
    lemma_collapsed_of_lowercase(c);
    law_the_shape_of_a_collapsed_text(text);
    law_the_shape_of_a_collapsed_text(n);
    assert(to_ascii_lowercase(n) =~= n);
    assert(is_ascii(n)) by {
        assert forall|i: int| 0 <= i < n.len() implies (#[trigger] n[i] as u32) < 128 by {
            assert((c[i] as u32) < 128);
        }
    }
}

/// Whitespace is these characters, and no other of any script.
pub proof fn law_white_space_is_these_characters(c: char)
    ensures
        is_white_space(c) <==> (c == '\u{9}'
            || c == '\u{a}'
            || c == '\u{b}'
            || c == '\u{c}'
            || c == '\u{d}'
            || c == '\u{20}'
            || c == '\u{85}'
            || c == '\u{a0}'
            || c == '\u{1680}'
            || c == '\u{2000}'
            || c == '\u{2001}'
            || c == '\u{2002}'
            || c == '\u{2003}'
            || c == '\u{2004}'
            || c == '\u{2005}'
            || c == '\u{2006}'
            || c == '\u{2007}'
            || c == '\u{2008}'
            || c == '\u{2009}'
            || c == '\u{200a}'
            || c == '\u{2028}'
            || c == '\u{2029}'
            || c == '\u{202f}'
            || c == '\u{205f}'
            || c == '\u{3000}'),
{
}

/// A text without whitespace is one word.
pub proof fn law_a_text_without_white_space_is_one_word(word: Seq<char>)
    requires
        word.len() > 0,
        forall|i: int| 0 <= i < word.len() ==> !is_white_space(#[trigger] word[i]),
    ensures
        words(word) == seq![word],
        collapsed(word) == word,
{
    lemma_words_of_word(word);
    assert(joined(seq![word]) == word);
}

/// Whitespace parts words, and nothing else does: the words of a text are those
/// before a gap and those behind it.
pub proof fn law_gaps_part_words(before: Seq<char>, gap: Seq<char>, behind: Seq<char>)
    requires
        is_gap(gap),
        gap.len() > 0,
    ensures
        words(before + gap + behind) == words(before) + words(behind),
        words(gap) == Seq::<Seq<char>>::empty(),
{
    lemma_words_around_gap(before, gap, behind);
    lemma_no_words(gap);
    assert(words(gap) =~= Seq::empty());
}

/// Joined words follow one another with one space between each two.
pub proof fn law_joining_puts_one_space_between(words: Seq<Seq<char>>, word: Seq<char>)
    ensures
        joined(Seq::<Seq<char>>::empty()) == Seq::<char>::empty(),
        joined(seq![word]) == word,
        words.len() > 0 ==> joined(words.push(word)) == joined(words) + seq![' '] + word,
{
    lemma_joined_push(words, word);
}

/// In any script: the key is the entity, the separator, and the whole text in small
/// letters with one space between each two of its words.
pub proof fn law_a_key_holds_the_whole_text(entity: Seq<char>, text: Seq<char>)
    ensures
        key_of(entity, normalised(text)) == entity + seq![SEPARATOR] + lowercase(
            joined(words(text)),
        ),
{
}

/// In any script: two texts that have no capitals share a key under one entity
/// exactly if they have the same words. So nothing but whitespace is lost of them.
pub proof fn law_texts_without_capitals_are_told_apart(
    entity: Seq<char>,
    text: Seq<char>,
    other: Seq<char>,
)
    requires
        lowercase(collapsed(text)) == collapsed(text),
        lowercase(collapsed(other)) == collapsed(other),
    ensures
        key_of(entity, normalised(text)) == key_of(entity, normalised(other)) <==> words(text)
            == words(other),
        key_of(entity, normalised(text)) == entity + seq![SEPARATOR] + collapsed(text),
{
    let n = entity.len() + 1;
    let (a, b) = (normalised(text), normalised(other));
    assert(key_of(entity, a).skip(n as int) =~= a);
    assert(key_of(entity, b).skip(n as int) =~= b);
    lemma_words_are_words(text);
    lemma_words_are_words(other);
    lemma_words_of_joined(words(text));
    lemma_words_of_joined(words(other));
}

/// Case and whitespace are all that is normalised away: two ASCII texts share a
/// key exactly if, up to the case of letters, they have the same words. So
/// punctuation tells them apart.
pub proof fn law_only_case_and_white_space_are_normalised(
    entity: Seq<char>,
    text: Seq<char>,
    other: Seq<char>,
)
    requires
        is_ascii(collapsed(text)),
        is_ascii(collapsed(other)),
    ensures
        key_of(entity, to_ascii_lowercase(collapsed(text))) == key_of(
            entity,
            to_ascii_lowercase(collapsed(other)),
        ) <==> words(to_ascii_lowercase(text)) == words(to_ascii_lowercase(other)),
{
    let (t, o) = (to_ascii_lowercase(text), to_ascii_lowercase(other));
    lemma_collapsed_of_lowercase(text);
    lemma_collapsed_of_lowercase(other);
    if key_of(entity, collapsed(t)) == key_of(entity, collapsed(o)) {
        let n = entity.len() + 1;
        assert(key_of(entity, collapsed(t)).skip(n as int) =~= collapsed(t));
        assert(key_of(entity, collapsed(o)).skip(n as int) =~= collapsed(o));
        lemma_words_are_words(t);
        lemma_words_are_words(o);
        lemma_words_of_joined(words(t));
        lemma_words_of_joined(words(o));
    }
}

/// Entities are namespaces: searches for different entities never share a key,
/// whatever their texts, unless one entity, with the separator behind it, begins
/// the other with the separator behind it. Without a separator in either, none
/// does.
pub proof fn law_entities_are_namespaces(
    entity: Seq<char>,
    text: Seq<char>,
    other: Seq<char>,
    other_text: Seq<char>,
)
    requires
        !(entity.push(SEPARATOR).is_prefix_of(other.push(SEPARATOR))),
        !(other.push(SEPARATOR).is_prefix_of(entity.push(SEPARATOR))),
    ensures
        key_of(entity, normalised(text)) != key_of(other, normalised(other_text)),
{
    let k = key_of(entity, normalised(text));
    if k == key_of(other, normalised(other_text)) {
        let (a, b) = (entity.push(SEPARATOR), other.push(SEPARATOR));
        assert(a =~= k.take(a.len() as int));
        assert(b =~= k.take(b.len() as int));
        if a.len() <= b.len() {
            assert(b.take(a.len() as int) =~= a);
        } else {
            assert(a.take(b.len() as int) =~= b);
        }
    }
}

/// Entities without a separator do not begin one another.
pub proof fn law_plain_entities_are_namespaces(
    entity: Seq<char>,
    text: Seq<char>,
    other: Seq<char>,
    other_text: Seq<char>,
)
    requires
        entity != other,
        !entity.contains(SEPARATOR),
        !other.contains(SEPARATOR),
    ensures
        key_of(entity, normalised(text)) != key_of(other, normalised(other_text)),
{
    let (a, b) = (entity.push(SEPARATOR), other.push(SEPARATOR));
    if a.is_prefix_of(b) {
        lemma_prefix(entity, other);
    }
    if b.is_prefix_of(a) {
        lemma_prefix(other, entity);
    }
    law_entities_are_namespaces(entity, text, other, other_text);
}

/// In any script: among entities without a separator, two searches share a key
/// exactly if they are for one entity and their texts have one normalised form.
pub proof fn law_keys_tell_searches_apart(
    entity: Seq<char>,
    text: Seq<char>,
    other: Seq<char>,
    other_text: Seq<char>,
)
    requires
        !entity.contains(SEPARATOR),
        !other.contains(SEPARATOR),
    ensures
        key_of(entity, normalised(text)) == key_of(other, normalised(other_text)) <==> entity
            == other && normalised(text) == normalised(other_text),
{
    if entity != other {
        law_plain_entities_are_namespaces(entity, text, other, other_text);
    } else {
        let n = entity.len() + 1;
        let (a, b) = (normalised(text), normalised(other_text));
        assert(key_of(entity, a).skip(n as int) =~= a);
        assert(key_of(entity, b).skip(n as int) =~= b);
    }
}

proof fn lemma_prefix(entity: Seq<char>, other: Seq<char>)
    requires
        entity.push(SEPARATOR).is_prefix_of(other.push(SEPARATOR)),
        !other.contains(SEPARATOR),
    ensures
        entity == other,
{
    let (a, b) = (entity.push(SEPARATOR), other.push(SEPARATOR));
    let n = entity.len() as int;
    assert(b.subrange(0, a.len() as int)[n] == SEPARATOR);
    if n < other.len() {
        assert(other[n] == SEPARATOR);
    } else {
        assert forall|i: int| 0 <= i < n implies entity[i] == other[i] by {
            assert(a[i] == b.subrange(0, a.len() as int)[i]);
        }
        assert(entity =~= other);
    }
}

} // verus!
