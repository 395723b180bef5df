//! Per-plugin cache backed by redb.
//!
//! Each plugin has a redb file of its own, [`CACHE_FILENAME`] in the plugin's
//! cache directory. A cache owns its database handle, and redb locks the file,
//! so what a cache holds changes through that cache alone: a read gives back
//! what the last write under the same key of the same table wrote.
//!
//! Every write is one redb write transaction: begun, filled, committed. Whatever
//! fails before the commit leaves the cache as it was.

use self::table::{Kind, Table};
pub use self::key::search_key;
use redb::{
    Database, ReadTransaction, ReadableTable, ReadableTableMetadata, TableDefinition,
    WriteTransaction,
};
use std::marker::PhantomData;
use std::path::{Path, PathBuf};
use vstd::prelude::*;

mod accessors;
pub mod bibrec;
pub mod key;
pub mod laws;
pub mod quota;
pub mod table;

verus! {

/// The name of the cache file within a plugin's cache directory.
pub const CACHE_FILENAME: &'static str = "cache.redb";

/// A stored value.
pub enum Cell {
    Text(Seq<char>),
    Blob(Seq<u8>),
    Count(u64),
}

impl Cell {
    /// Which kind of value it is.
    pub open spec fn kind(self) -> Kind {
        match self {
            Cell::Text(_) => Kind::Text,
            Cell::Blob(_) => Kind::Blob,
            Cell::Count(_) => Kind::Count,
        }
    }
}

/// The rows of a table: what each key is mapped to.
pub type Rows = Map<Seq<char>, Cell>;

/// The tables of a database, by name.
pub type Tables = Map<Seq<char>, Rows>;

/// The rows of the table called `name`; a table that is not there has none.
pub open spec fn rows(tables: Tables, name: Seq<char>) -> Rows {
    if tables.contains_key(name) {
        tables[name]
    } else {
        Map::empty()
    }
}

/// `tables` with a table called `name`, empty if there was none.
pub open spec fn with_table(tables: Tables, name: Seq<char>) -> Tables {
    tables.insert(name, rows(tables, name))
}

/// `tables` with `key` mapped to `cell` in the table called `name`.
pub open spec fn with_row(tables: Tables, name: Seq<char>, key: Seq<char>, cell: Cell) -> Tables {
    tables.insert(name, rows(tables, name).insert(key, cell))
}

/// Every value in the table called `name` is of `kind`.
pub open spec fn all_of_kind(tables: Tables, name: Seq<char>, kind: Kind) -> bool {
    forall|key: Seq<char>| #[trigger]
        rows(tables, name).contains_key(key) ==> rows(tables, name)[key].kind() == kind
}

// ---- redb ----

/// `redb::Database`, an open database file.
#[verifier::external_type_specification]
#[verifier::external_body]
pub struct ExDatabase(redb::Database);

/// `redb::ReadTransaction`, a snapshot of a database.
#[verifier::external_type_specification]
#[verifier::external_body]
pub struct ExReadTransaction(redb::ReadTransaction);

/// `redb::Error`, into which every error of redb converts.
#[verifier::external_type_specification]
#[verifier::external_body]
pub struct ExError(redb::Error);

/// `std::path::Path`.
#[verifier::external_type_specification]
#[verifier::external_body]
pub struct ExPath(std::path::Path);

/// `std::path::PathBuf`.
#[verifier::external_type_specification]
#[verifier::external_body]
pub struct ExPathBuf(std::path::PathBuf);

/// What is committed in a database: those of its tables that have text keys and
/// text, byte or `u64` values.
pub uninterp spec fn committed(db: Database) -> Map<Seq<char>, Map<Seq<char>, Cell>>;

/// What a read transaction sees of such tables.
pub uninterp spec fn snapshot(tx: ReadTransaction) -> Map<Seq<char>, Map<Seq<char>, Cell>>;

/// No write transaction on the database is live, except one held by a [`Writer`]
/// that borrows its cache. So `begin_write` has none to wait for.
pub uninterp spec fn idle(db: Database) -> bool;

/// The path that the database was opened at, if it is one in a file.
pub uninterp spec fn file_of(db: Database) -> PathBuf;

/// The path of `file` in the directory `dir`, as `Path::join` gives it where the
/// program runs.
pub uninterp spec fn joined_path(dir: &Path, file: Seq<char>) -> PathBuf;

/// A live `redb::WriteTransaction` on a cache, which it keeps borrowed until it is
/// dropped: redb has one writer at a time, and another `begin_write` would wait for
/// this one. Nothing inside is open to verified code, so that [`begin_write`] alone
/// makes one. Every operation takes it, and hands it back only on success. It ends
/// with a commit, with an abort, or when it is dropped; nothing here leaks one.
#[verifier::external_body]
pub struct Writer<'c> {
    tx: WriteTransaction,
    /// Counts as part of what a drop of the writer drops. A plain reference would
    /// let the borrow end before that.
    cache: PhantomData<Box<dyn Send + 'c>>,
}

/// What was committed when the transaction began.
pub uninterp spec fn began(w: Writer<'_>) -> Map<Seq<char>, Map<Seq<char>, Cell>>;

/// What the transaction sees, its own writes among it.
pub uninterp spec fn sees(w: Writer<'_>) -> Map<Seq<char>, Map<Seq<char>, Cell>>;

/// What is committed once the transaction is over.
pub uninterp spec fn ended(w: Writer<'_>) -> Map<Seq<char>, Map<Seq<char>, Cell>>;

/// `Path::join`. The path is named, and no more is claimed of it: it is written as
/// the machine writes paths.
#[verifier::external_body]
fn join_path(dir: &Path, file: &str) -> (path: PathBuf)
    ensures
        path == joined_path(dir, file@),
{
    dir.join(file)
}

/// `Database::create` opens the file, making a database of it where it is
/// missing or empty. The database is that of the file at `path`, and redb hands it
/// out with no write transaction live. Nothing is claimed of what it holds: that
/// is what is on disk.
#[verifier::external_body]
fn create_database(path: &PathBuf) -> (r: Result<Database, redb::Error>)
    ensures
        r matches Ok(db) ==> file_of(db) == *path && idle(db),
{
    Ok(Database::create(path)?)
}

/// `Database::begin_write` on a database with no other writer, for which it would
/// wait: the transaction starts from what is committed. When the cache is free
/// again the transaction is over, and what is then committed is the end of it. The
/// database stays that of its file. After an I/O error redb begins no further
/// transaction.
#[verifier::external_body]
fn begin_write<'c>(cache: &'c mut MidhashCache) -> (r: Result<Writer<'c>, redb::Error>)
    requires
        idle(old(cache).db),
    ensures
        r matches Ok(w) ==> began(w) == committed(old(cache).db) && sees(w) == committed(
            old(cache).db,
        ) && ended(w) == committed(final(cache).db),
        r is Err ==> committed(final(cache).db) == committed(old(cache).db),
        file_of(final(cache).db) == file_of(old(cache).db),
        idle(final(cache).db),
{
    let tx = cache.db.begin_write()?;
    Ok(Writer { tx, cache: PhantomData })
}

/// `WriteTransaction::commit`: on success, what the transaction sees is what is
/// committed. Nothing is claimed of what the database holds after a commit that
/// failed.
#[verifier::external_body]
fn commit(w: Writer<'_>) -> (r: Result<(), redb::Error>)
    ensures
        r is Ok ==> ended(w) == sees(w),
{
    Ok(w.tx.commit()?)
}

/// `WriteTransaction::abort`: all writes of the transaction are rolled back.
#[verifier::external_body]
fn abort(w: Writer<'_>) -> (r: Result<(), redb::Error>)
    ensures
        r is Ok ==> ended(w) == began(w),
        r is Err ==> ended(w) == began(w),
{
    Ok(w.tx.abort()?)
}

/// `WriteTransaction::open_table` with text values: the table is created if it
/// does not exist, and one with values of another type is refused. Each call reads
/// storage, also for a table that exists, so it may fail on any input. A failure
/// drops the transaction, and redb rolls back one that is dropped.
#[verifier::external_body]
fn create_text_table<'c>(w: Writer<'c>, table: &str) -> (r: Result<Writer<'c>, redb::Error>)
    requires
        table@.len() > 0,
    ensures
        r matches Ok(after) ==> began(after) == began(w) && ended(after) == ended(w) && sees(after)
            == with_table(sees(w), table@) && all_of_kind(sees(after), table@, Kind::Text),
        r is Err ==> ended(w) == began(w),
{
    w.tx.open_table(TableDefinition::<&str, &str>::new(table))?;
    Ok(w)
}

/// `WriteTransaction::open_table` with byte values, as [`create_text_table`].
#[verifier::external_body]
fn create_blob_table<'c>(w: Writer<'c>, table: &str) -> (r: Result<Writer<'c>, redb::Error>)
    requires
        table@.len() > 0,
    ensures
        r matches Ok(after) ==> began(after) == began(w) && ended(after) == ended(w) && sees(after)
            == with_table(sees(w), table@) && all_of_kind(sees(after), table@, Kind::Blob),
        r is Err ==> ended(w) == began(w),
{
    w.tx.open_table(TableDefinition::<&str, &[u8]>::new(table))?;
    Ok(w)
}

/// `WriteTransaction::open_table` with `u64` values, as [`create_text_table`].
#[verifier::external_body]
fn create_count_table<'c>(w: Writer<'c>, table: &str) -> (r: Result<Writer<'c>, redb::Error>)
    requires
        table@.len() > 0,
    ensures
        r matches Ok(after) ==> began(after) == began(w) && ended(after) == ended(w) && sees(after)
            == with_table(sees(w), table@) && all_of_kind(sees(after), table@, Kind::Count),
        r is Err ==> ended(w) == began(w),
{
    w.tx.open_table(TableDefinition::<&str, u64>::new(table))?;
    Ok(w)
}

/// `WriteTransaction::open_table` with text values, then `Table::insert` on that
/// table, which does not outlive the call: the key is mapped to the value, in
/// place of what it was mapped to. A failure drops the transaction, and redb rolls
/// back one that is dropped.
#[verifier::external_body]
fn insert_text<'c>(w: Writer<'c>, table: &str, key: &str, value: &str) -> (r: Result<
    Writer<'c>,
    redb::Error,
>)
    requires
        table@.len() > 0,
    ensures
        r matches Ok(after) ==> began(after) == began(w) && ended(after) == ended(w) && sees(after)
            == with_row(sees(w), table@, key@, Cell::Text(value@)),
        r is Err ==> ended(w) == began(w),
{
    w.tx.open_table(TableDefinition::<&str, &str>::new(table))?.insert(key, value)?;
    Ok(w)
}

/// `WriteTransaction::open_table` and `Table::insert` with byte values, as
/// [`insert_text`].
#[verifier::external_body]
fn insert_blob<'c>(w: Writer<'c>, table: &str, key: &str, value: &[u8]) -> (r: Result<
    Writer<'c>,
    redb::Error,
>)
    requires
        table@.len() > 0,
    ensures
        r matches Ok(after) ==> began(after) == began(w) && ended(after) == ended(w) && sees(after)
            == with_row(sees(w), table@, key@, Cell::Blob(value@)),
        r is Err ==> ended(w) == began(w),
{
    w.tx.open_table(TableDefinition::<&str, &[u8]>::new(table))?.insert(key, value)?;
    Ok(w)
}

/// `WriteTransaction::open_table` and `Table::insert` with `u64` values, as
/// [`insert_text`].
#[verifier::external_body]
fn insert_count<'c>(w: Writer<'c>, table: &str, key: &str, value: u64) -> (r: Result<
    Writer<'c>,
    redb::Error,
>)
    requires
        table@.len() > 0,
    ensures
        r matches Ok(after) ==> began(after) == began(w) && ended(after) == ended(w) && sees(after)
            == with_row(sees(w), table@, key@, Cell::Count(value)),
        r is Err ==> ended(w) == began(w),
{
    w.tx.open_table(TableDefinition::<&str, u64>::new(table))?.insert(key, value)?;
    Ok(w)
}

/// `WriteTransaction::open_table` with `u64` values, which creates the table if
/// it does not exist, then `ReadableTable::get` on it: the value that the key is
/// mapped to. A failure drops the transaction, and redb rolls back one that is
/// dropped.
#[verifier::external_body]
fn staged_count<'c>(w: Writer<'c>, table: &str, key: &str) -> (r: Result<
    (Writer<'c>, Option<u64>),
    redb::Error,
>)
    requires
        table@.len() > 0,
    ensures
        r matches Ok((after, _)) ==> began(after) == began(w) && ended(after) == ended(w) && sees(
            after,
        ) == with_table(sees(w), table@),
        r matches Ok((_, Some(n))) ==> rows(sees(w), table@).contains_key(key@) && rows(
            sees(w),
            table@,
        )[key@] == Cell::Count(n),
        r matches Ok((_, None)) ==> !rows(sees(w), table@).contains_key(key@),
        r is Err ==> ended(w) == began(w),
{
    let table = TableDefinition::<&str, u64>::new(table);
    let n = w.tx.open_table(table)?.get(key)?.map(|v| v.value());
    Ok((w, n))
}

/// `Database::begin_read`: the transaction sees what is committed.
#[verifier::external_body]
fn begin_read(db: &Database) -> (r: Result<ReadTransaction, redb::Error>)
    ensures
        r matches Ok(tx) ==> snapshot(tx) == committed(*db),
{
    Ok(db.begin_read()?)
}

/// `ReadTransaction::open_table` with text values, then `ReadOnlyTable::get`: the
/// value that the key is mapped to. A table that does not exist or has values of
/// another type is an error.
#[verifier::external_body]
fn read_text(tx: &ReadTransaction, table: &str, key: &str) -> (r: Result<
    Option<String>,
    redb::Error,
>)
    requires
        table@.len() > 0,
    ensures
        r matches Ok(Some(value)) ==> rows(snapshot(*tx), table@).contains_key(key@) && rows(
            snapshot(*tx),
            table@,
        )[key@] == Cell::Text(value@),
        r matches Ok(None) ==> !rows(snapshot(*tx), table@).contains_key(key@),
{
    let table = tx.open_table(TableDefinition::<&str, &str>::new(table))?;
    Ok(table.get(key)?.map(|v| v.value().to_string()))
}

/// `ReadTransaction::open_table` and `ReadOnlyTable::get` with byte values, as
/// [`read_text`].
#[verifier::external_body]
fn read_blob(tx: &ReadTransaction, table: &str, key: &str) -> (r: Result<
    Option<Vec<u8>>,
    redb::Error,
>)
    requires
        table@.len() > 0,
    ensures
        r matches Ok(Some(value)) ==> rows(snapshot(*tx), table@).contains_key(key@) && rows(
            snapshot(*tx),
            table@,
        )[key@] == Cell::Blob(value@),
        r matches Ok(None) ==> !rows(snapshot(*tx), table@).contains_key(key@),
{
    let table = tx.open_table(TableDefinition::<&str, &[u8]>::new(table))?;
    Ok(table.get(key)?.map(|v| v.value().to_vec()))
}

/// `ReadTransaction::open_table` and `ReadOnlyTable::get` with `u64` values, as
/// [`read_text`].
#[verifier::external_body]
fn read_count(tx: &ReadTransaction, table: &str, key: &str) -> (r: Result<
    Option<u64>,
    redb::Error,
>)
    requires
        table@.len() > 0,
    ensures
        r matches Ok(Some(n)) ==> rows(snapshot(*tx), table@).contains_key(key@) && rows(
            snapshot(*tx),
            table@,
        )[key@] == Cell::Count(n),
        r matches Ok(None) ==> !rows(snapshot(*tx), table@).contains_key(key@),
{
    let table = tx.open_table(TableDefinition::<&str, u64>::new(table))?;
    Ok(table.get(key)?.map(|v| v.value()))
}

/// `ReadTransaction::open_table` with text values, then
/// `ReadableTableMetadata::len`: how many keys the table has.
#[verifier::external_body]
fn read_len(tx: &ReadTransaction, table: &str) -> (r: Result<u64, redb::Error>)
    requires
        table@.len() > 0,
    ensures
        r matches Ok(n) ==> rows(snapshot(*tx), table@).dom().finite() && n == rows(
            snapshot(*tx),
            table@,
        ).len(),
{
    Ok(tx.open_table(TableDefinition::<&str, &str>::new(table))?.len()?)
}

// ---- the cache ----

/// Where an operation on a cache failed, with redb's error.
#[derive(Debug)]
pub enum CacheError {
    /// The file could not be opened as a database.
    Open(redb::Error),
    /// No transaction could be begun.
    Begin(redb::Error),
    /// A table could not be opened, read or written.
    Access(redb::Error),
    /// The transaction could not be committed. Whether its writes are there is
    /// unknown.
    Commit(redb::Error),
    /// The transaction could not be rolled back in good order.
    Abort(redb::Error),
}

impl CacheError {
    /// redb's error.
    pub fn into_inner(self) -> (e: redb::Error)
        ensures
            self == CacheError::Open(e) || self == CacheError::Begin(e) || self
                == CacheError::Access(e) || self == CacheError::Commit(e) || self
                == CacheError::Abort(e),
    {
        match self {
            CacheError::Open(e) => e,
            CacheError::Begin(e) => e,
            CacheError::Access(e) => e,
            CacheError::Commit(e) => e,
            CacheError::Abort(e) => e,
        }
    }
}

/// Per-plugin cache.
pub struct MidhashCache {
    db: Database,
}

impl View for MidhashCache {
    type V = Map<Seq<char>, Map<Seq<char>, Cell>>;

    closed spec fn view(&self) -> Tables {
        committed(self.db)
    }
}

impl MidhashCache {
    #[verifier::type_invariant]
    spec fn well_formed(self) -> bool {
        idle(self.db)
    }

    /// The path of the file that the cache is in.
    pub closed spec fn file(self) -> PathBuf {
        file_of(self.db)
    }
}

/// Every table of the cache is there and holds values of its own kind alone.
pub open spec fn has_schema(tables: Tables) -> bool {
    forall|table: Table| #[trigger] has_table(tables, table)
}

/// The table is there and holds values of its own kind alone.
pub open spec fn has_table(tables: Tables, table: Table) -> bool {
    tables.contains_key(table.spec_name()) && all_of_kind(
        tables,
        table.spec_name(),
        table.spec_kind(),
    )
}

/// Whether a table of the cache is called `name`.
pub open spec fn is_table_name(name: Seq<char>) -> bool {
    exists|table: Table| #[trigger] table.spec_name() == name
}

/// `after` has the tables that `before` has, with the same rows, and besides them
/// the cache's own.
pub open spec fn adds_only_tables(before: Tables, after: Tables) -> bool {
    &&& forall|name: Seq<char>| #[trigger] rows(after, name) == rows(before, name)
    &&& forall|name: Seq<char>| #[trigger]
        before.contains_key(name) ==> after.contains_key(name)
    &&& forall|name: Seq<char>| #[trigger]
        after.contains_key(name) ==> before.contains_key(name) || is_table_name(name)
}

/// What `key` is mapped to in `table`.
pub open spec fn lookup(tables: Tables, table: Table, key: Seq<char>) -> Option<Cell> {
    let rows = rows(tables, table.spec_name());
    if rows.contains_key(key) {
        Some(rows[key])
    } else {
        None
    }
}

/// `tables` with `key` mapped to `cell` in `table`.
pub open spec fn store(tables: Tables, table: Table, key: Seq<char>, cell: Cell) -> Tables {
    with_row(tables, table.spec_name(), key, cell)
}

/// What a read of text that succeeded found.
pub open spec fn found_text(value: Option<String>) -> Option<Cell> {
    match value {
        Some(value) => Some(Cell::Text(value@)),
        None => None,
    }
}

/// What a read of bytes that succeeded found.
pub open spec fn found_blob(value: Option<Vec<u8>>) -> Option<Cell> {
    match value {
        Some(value) => Some(Cell::Blob(value@)),
        None => None,
    }
}

/// What a write leaves behind: the new value in place; or, where it failed
/// before the commit, everything as it was. After a failed commit nothing is
/// known.
pub open spec fn written(
    before: Tables,
    after: Tables,
    table: Table,
    key: Seq<char>,
    cell: Cell,
    r: Result<(), CacheError>,
) -> bool {
    match r {
        Ok(_) => after == store(before, table, key, cell),
        Err(CacheError::Begin(_)) => after == before,
        Err(CacheError::Access(_)) => after == before,
        Err(CacheError::Commit(_)) => true,
        Err(_) => false,
    }
}

/// A read fails where no transaction can be begun or the table cannot be read.
pub open spec fn read_error(e: CacheError) -> bool {
    e is Begin || e is Access
}

// ---- what redb refused ----

/// redb gave `e` for reading `key` in the table called `name`, as a table with
/// values of `kind`.
spec fn read_gave(
    tx: ReadTransaction,
    name: &str,
    key: &str,
    kind: Kind,
    e: redb::Error,
) -> bool {
    match kind {
        Kind::Text => call_ensures(
            read_text,
            (&tx, name, key),
            Err::<Option<String>, redb::Error>(e),
        ),
        Kind::Blob => call_ensures(
            read_blob,
            (&tx, name, key),
            Err::<Option<Vec<u8>>, redb::Error>(e),
        ),
        Kind::Count => call_ensures(read_count, (&tx, name, key), Err::<Option<u64>, redb::Error>(e)),
    }
}

/// redb gave `e` for opening the table called `name` with values of `kind`.
spec fn open_table_gave(w: Writer<'_>, name: &str, kind: Kind, e: redb::Error) -> bool {
    match kind {
        Kind::Text => call_ensures(create_text_table, (w, name), Err::<Writer<'_>, redb::Error>(e)),
        Kind::Blob => call_ensures(create_blob_table, (w, name), Err::<Writer<'_>, redb::Error>(e)),
        Kind::Count => call_ensures(
            create_count_table,
            (w, name),
            Err::<Writer<'_>, redb::Error>(e),
        ),
    }
}

/// redb gave `e` for mapping `key` to `cell` in the table called `name`.
spec fn insert_gave(w: Writer<'_>, name: &str, key: &str, cell: Cell, e: redb::Error) -> bool {
    match cell {
        Cell::Text(text) => exists|value: &str|
            value@ == text && #[trigger] call_ensures(
                insert_text,
                (w, name, key, value),
                Err::<Writer<'_>, redb::Error>(e),
            ),
        Cell::Blob(bytes) => exists|value: &[u8]|
            value@ == bytes && #[trigger] call_ensures(
                insert_blob,
                (w, name, key, value),
                Err::<Writer<'_>, redb::Error>(e),
            ),
        Cell::Count(value) => call_ensures(
            insert_count,
            (w, name, key, value),
            Err::<Writer<'_>, redb::Error>(e),
        ),
    }
}

/// redb gave `e` for beginning a write transaction on the database of `cache`.
spec fn begin_write_gave(cache: MidhashCache, e: redb::Error) -> bool {
    exists|c: &mut MidhashCache|
        *c == cache && #[trigger] call_ensures(begin_write, (c,), Err::<Writer<'_>, redb::Error>(e))
}

/// redb gave `e` for beginning to read the cache.
spec fn begin_read_gave(cache: MidhashCache, e: redb::Error) -> bool {
    call_ensures(begin_read, (&cache.db,), Err::<ReadTransaction, redb::Error>(e))
}

/// `tx` is a transaction that redb gave for reading the cache.
spec fn reads(tx: ReadTransaction, cache: MidhashCache) -> bool {
    call_ensures(begin_read, (&cache.db,), Ok::<ReadTransaction, redb::Error>(tx))
}

/// redb gave `e` for reading `key` in `table`, with values of the table's kind.
spec fn key_refused(cache: MidhashCache, table: Table, key: Seq<char>, e: redb::Error) -> bool {
    exists|tx: ReadTransaction, n: &str, k: &str|
        n@ == table.spec_name() && k@ == key && reads(tx, cache) && #[trigger] read_gave(
            tx,
            n,
            k,
            table.spec_kind(),
            e,
        )
}

/// redb gave `e` for counting the entries of the table called `name`.
spec fn len_refused(cache: MidhashCache, name: Seq<char>, e: redb::Error) -> bool {
    exists|tx: ReadTransaction, n: &str|
        n@ == name && reads(tx, cache) && #[trigger] call_ensures(
            read_len,
            (&tx, n),
            Err::<u64, redb::Error>(e),
        )
}

/// redb gave `e` for mapping `key` to `cell` in `table`, in a transaction that
/// sees `tables`.
spec fn row_refused(
    tables: Tables,
    table: Table,
    key: Seq<char>,
    cell: Cell,
    e: redb::Error,
) -> bool {
    exists|w: Writer<'_>, n: &str, k: &str|
        sees(w) == tables && n@ == table.spec_name() && k@ == key && #[trigger] insert_gave(
            w,
            n,
            k,
            cell,
            e,
        )
}

/// redb gave `e` for the commit of `tables`.
spec fn commit_refused(tables: Tables, e: redb::Error) -> bool {
    exists|w: Writer<'_>|
        sees(w) == tables && #[trigger] call_ensures(commit, (w,), Err::<(), redb::Error>(e))
}

/// redb gave `e` for the commit of a cache's tables added to `before`.
spec fn setup_commit_refused(before: Tables, e: redb::Error) -> bool {
    exists|w: Writer<'_>|
        has_schema(sees(w)) && adds_only_tables(before, sees(w)) && #[trigger] call_ensures(
            commit,
            (w,),
            Err::<(), redb::Error>(e),
        )
}

/// redb refused to read `key` in `table`: `e` is what it gave for beginning to
/// read, or then for reading that key of that table with values of its kind.
pub closed spec fn read_refused(
    cache: MidhashCache,
    table: Table,
    key: Seq<char>,
    e: CacheError,
) -> bool {
    match e {
        CacheError::Begin(e) => begin_read_gave(cache, e),
        CacheError::Access(e) => key_refused(cache, table, key, e),
        _ => false,
    }
}

/// redb refused to count the entries of the table called `name`.
pub closed spec fn count_refused(cache: MidhashCache, name: Seq<char>, e: CacheError) -> bool {
    match e {
        CacheError::Begin(e) => begin_read_gave(cache, e),
        CacheError::Access(e) => len_refused(cache, name, e),
        _ => false,
    }
}

/// redb refused to map `key` to `cell` in `table`: `e` is what it gave for
/// beginning, then for that very row, or then for the commit of it.
pub closed spec fn write_refused(
    cache: MidhashCache,
    table: Table,
    key: Seq<char>,
    cell: Cell,
    e: CacheError,
) -> bool {
    match e {
        CacheError::Begin(e) => begin_write_gave(cache, e),
        CacheError::Access(e) => row_refused(cache@, table, key, cell, e),
        CacheError::Commit(e) => commit_refused(store(cache@, table, key, cell), e),
        _ => false,
    }
}

/// redb refused to open one of the cache's tables, with no more than tables added
/// to `before` so far.
pub closed spec fn tables_refused(before: Tables, e: redb::Error) -> bool {
    exists|w: Writer<'_>, n: &str, table: Table|
        adds_only_tables(before, sees(w)) && n@ == table.spec_name() && #[trigger] open_table_gave(
            w,
            n,
            table.spec_kind(),
            e,
        )
}

/// redb refused to set the cache up in `db`.
pub closed spec fn setup_refused(db: Database, e: CacheError) -> bool {
    match e {
        CacheError::Begin(e) => begin_write_gave(MidhashCache { db }, e),
        CacheError::Access(e) => tables_refused(committed(db), e),
        CacheError::Commit(e) => setup_commit_refused(committed(db), e),
        _ => false,
    }
}

/// `db` is a database that redb gave for the file at `path`.
pub closed spec fn opened_at(path: PathBuf, db: Database) -> bool {
    call_ensures(create_database, (&path,), Ok::<Database, redb::Error>(db))
}

/// redb refused to open the file at `path`, or to set the cache up in the database
/// that it gave for it.
pub closed spec fn open_refused(path: PathBuf, e: CacheError) -> bool {
    match e {
        CacheError::Open(e) => call_ensures(
            create_database,
            (&path,),
            Err::<Database, redb::Error>(e),
        ),
        _ => exists|db: Database| #[trigger] opened_at(path, db) && setup_refused(db, e),
    }
}

/// Creates every table that is not there yet. The first table that redb does not
/// open ends it with redb's error, and everything is rolled back.
fn create_tables<'c>(w: Writer<'c>) -> (r: Result<Writer<'c>, redb::Error>)
    ensures
        r matches Ok(after) ==> began(after) == began(w) && ended(after) == ended(w) && has_schema(
            sees(after),
        ) && adds_only_tables(sees(w), sees(after)),
        r matches Err(e) ==> ended(w) == began(w) && tables_refused(sees(w), e),
{
    let tables: Vec<Table> = Table::all();
    let mut now: Writer<'c> = w;
    let mut i: usize = 0;
    while i < tables.len()
        invariant
            i <= tables.len(),
            forall|j: int| 0 <= j < i ==> #[trigger] has_table(sees(now), tables@[j]),
            adds_only_tables(sees(w), sees(now)),
            began(now) == began(w),
            ended(now) == ended(w),
        decreases tables.len() - i,
    {
        let ghost before = sees(now);
        let table: Table = tables[i];
        let name: &'static str = table.name();
        let created: Result<Writer<'c>, redb::Error> = match table.kind() {
            Kind::Text => create_text_table(now, name),
            Kind::Blob => create_blob_table(now, name),
            Kind::Count => create_count_table(now, name),
        };
        now = match created {
            Ok(after) => after,
            Err(e) => {
                assert(open_table_gave(now, name, table.spec_kind(), e));
                return Err(e);
            },
        };
        proof {
            let after = sees(now);
            assert(after == with_table(before, table.spec_name()));
            assert forall|name: Seq<char>| #[trigger] rows(after, name) == rows(before, name) by {}
            assert forall|name: Seq<char>| #[trigger] after.contains_key(name) implies sees(
                w,
            ).contains_key(name) || is_table_name(name) by {
                if name == table.spec_name() {
                    assert(is_table_name(name));
                } else {
                    assert(before.contains_key(name));
                }
            }
            assert forall|j: int| 0 <= j < i + 1 implies #[trigger] has_table(after, tables@[j]) by {
                if j < i {
                    assert(has_table(before, tables@[j]));
                    let name = tables@[j].spec_name();
                    assert(rows(after, name) == rows(before, name));
                }
            }
        }
        i += 1;
    }
    proof {
        assert forall|table: Table| #[trigger] has_table(sees(now), table) by {
            assert(tables@.contains(table));
            let j = choose|j: int| 0 <= j < tables@.len() && tables@[j] == table;
            assert(has_table(sees(now), tables@[j]));
        }
    }
    Ok(now)
}

/// The cache file of the plugin whose cache directory is `cache_dir`.
pub fn cache_file(cache_dir: &Path) -> (path: PathBuf)
    ensures
        path == joined_path(cache_dir, CACHE_FILENAME@),
{
    join_path(cache_dir, CACHE_FILENAME)
}

impl MidhashCache {
    /// Opens the cache in `cache_dir`, creating the file and the tables that are
    /// not there yet.
    pub fn open(cache_dir: &Path) -> (r: Result<Self, CacheError>)
        ensures
            r matches Ok(cache) ==> has_schema(cache@) && cache.file() == joined_path(
                cache_dir,
                CACHE_FILENAME@,
            ),
            r matches Ok(cache) ==> exists|db: Database| #[trigger]
                opened_at(joined_path(cache_dir, CACHE_FILENAME@), db) && adds_only_tables(
                    committed(db),
                    cache@,
                ),
            r matches Err(e) ==> !(e is Abort),
            r matches Err(e) ==> open_refused(joined_path(cache_dir, CACHE_FILENAME@), e),
    {
        let path: PathBuf = cache_file(cache_dir);
        let created: Result<Database, redb::Error> = create_database(&path);
        assert(created matches Ok(db) ==> opened_at(path, db));
        match created {
            Ok(db) => MidhashCache::from_database(db),
            Err(e) => Err(CacheError::Open(e)),
        }
    }

    /// The cache in an open database on which no write transaction is live. Tables
    /// that are not there yet are created, empty; what the others hold stays.
    pub fn from_database(db: Database) -> (r: Result<Self, CacheError>)
        requires
            idle(db),
        ensures
            r matches Ok(cache) ==> has_schema(cache@) && adds_only_tables(committed(db), cache@)
                && cache.file() == file_of(db),
            r matches Err(e) ==> e is Begin || e is Access || e is Commit,
            r matches Err(e) ==> setup_refused(db, e),
    {
        let mut cache: MidhashCache = MidhashCache { db };
        let w: Writer<'_> = match begin_write(&mut cache) {
            Ok(w) => w,
            Err(e) => {
                return Err(CacheError::Begin(e));
            },
        };
        let w: Writer<'_> = match create_tables(w) {
            Ok(w) => w,
            Err(e) => {
                return Err(CacheError::Access(e));
            },
        };
        if let Err(e) = commit(w) {
            return Err(CacheError::Commit(e));
        }
        Ok(cache)
    }

    /// The text that `key` is mapped to in `table`.
    fn get_text(&self, table: Table, key: &str) -> (r: Result<Option<String>, CacheError>)
        ensures
            r matches Ok(value) ==> found_text(value) == lookup(self@, table, key@),
            r matches Err(e) ==> read_error(e),
            r matches Err(e) ==> (table.spec_kind() == Kind::Text ==> read_refused(
                *self,
                table,
                key@,
                e,
            )),
    {
        let tx: ReadTransaction = match begin_read(&self.db) {
            Ok(tx) => tx,
            Err(e) => {
                return Err(CacheError::Begin(e));
            },
        };
        let name: &'static str = table.name();
        match read_text(&tx, name, key) {
            Ok(value) => Ok(value),
            Err(e) => {
                assert(read_gave(tx, name, key, Kind::Text, e));
                Err(CacheError::Access(e))
            },
        }
    }

    /// Maps `key` to the text `value` in `table`.
    fn put_text(&mut self, table: Table, key: &str, value: &str) -> (r: Result<(), CacheError>)
        ensures
            written(old(self)@, final(self)@, table, key@, Cell::Text(value@), r),
            r matches Err(e) ==> write_refused(*old(self), table, key@, Cell::Text(value@), e),
            final(self).file() == old(self).file(),
    {
        proof {
            use_type_invariant(&*self);
        }
        let w: Writer<'_> = match begin_write(self) {
            Ok(w) => w,
            Err(e) => {
                return Err(CacheError::Begin(e));
            },
        };
        let ghost begun = w;
        let name: &'static str = table.name();
        let w: Writer<'_> = match insert_text(w, name, key, value) {
            Ok(w) => w,
            Err(e) => {
                assert(insert_gave(begun, name, key, Cell::Text(value@), e));
                return Err(CacheError::Access(e));
            },
        };
        match commit(w) {
            Ok(_) => Ok(()),
            Err(e) => Err(CacheError::Commit(e)),
        }
    }

    /// How many records have a hash.
    pub fn entry_count(&self) -> (r: Result<u64, CacheError>)
        ensures
            r matches Ok(n) ==> rows(self@, Table::Midhash.spec_name()).dom().finite() && n == rows(
                self@,
                Table::Midhash.spec_name(),
            ).len(),
            r matches Err(e) ==> read_error(e),
            r matches Err(e) ==> count_refused(*self, Table::Midhash.spec_name(), e),
    {
        let tx: ReadTransaction = match begin_read(&self.db) {
            Ok(tx) => tx,
            Err(e) => {
                return Err(CacheError::Begin(e));
            },
        };
        match read_len(&tx, Table::Midhash.name()) {
            Ok(n) => Ok(n),
            Err(e) => Err(CacheError::Access(e)),
        }
    }

    /// Reads the bytes stored under `cid`.
    pub fn get_blob(&self, cid: &str) -> (r: Result<Option<Vec<u8>>, CacheError>)
        ensures
            r matches Ok(value) ==> found_blob(value) == lookup(self@, Table::Blobs, cid@),
            r matches Err(e) ==> read_error(e),
            r matches Err(e) ==> read_refused(*self, Table::Blobs, cid@, e),
    {
        let tx: ReadTransaction = match begin_read(&self.db) {
            Ok(tx) => tx,
            Err(e) => {
                return Err(CacheError::Begin(e));
            },
        };
        let name: &'static str = Table::Blobs.name();
        match read_blob(&tx, name, cid) {
            Ok(value) => Ok(value),
            Err(e) => {
                assert(read_gave(tx, name, cid, Kind::Blob, e));
                Err(CacheError::Access(e))
            },
        }
    }

    /// Stores bytes under `cid`.
    pub fn put_blob(&mut self, cid: &str, bytes: &[u8]) -> (r: Result<(), CacheError>)
        ensures
            written(old(self)@, final(self)@, Table::Blobs, cid@, Cell::Blob(bytes@), r),
            r matches Err(e) ==> write_refused(
                *old(self),
                Table::Blobs,
                cid@,
                Cell::Blob(bytes@),
                e,
            ),
            final(self).file() == old(self).file(),
    {
        proof {
            use_type_invariant(&*self);
        }
        let w: Writer<'_> = match begin_write(self) {
            Ok(w) => w,
            Err(e) => {
                return Err(CacheError::Begin(e));
            },
        };
        let ghost begun = w;
        let name: &'static str = Table::Blobs.name();
        let w: Writer<'_> = match insert_blob(w, name, cid, bytes) {
            Ok(w) => w,
            Err(e) => {
                assert(insert_gave(begun, name, cid, Cell::Blob(bytes@), e));
                return Err(CacheError::Access(e));
            },
        };
        match commit(w) {
            Ok(_) => Ok(()),
            Err(e) => Err(CacheError::Commit(e)),
        }
    }
}

} // verus!
