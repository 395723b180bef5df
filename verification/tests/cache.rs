use std::collections::BTreeMap;
use std::sync::atomic::{AtomicBool, Ordering};
use std::sync::Arc;

use meta_feeder_sdk::cache::bibrec::json_or_empty;
use meta_feeder_sdk::cache::quota::next_spend;
use meta_feeder_sdk::cache::table::{Kind, Table};
use meta_feeder_sdk::cache::{cache_file, CacheError, MidhashCache, CACHE_FILENAME};
use redb::backends::InMemoryBackend;
use redb::{Database, ReadableTable, StorageBackend, TableDefinition};

fn tmp_cache_dir() -> tempfile::TempDir {
    tempfile::tempdir().expect("tempdir")
}

#[test]
fn put_then_get_returns_value() {
    let dir = tmp_cache_dir();
    let mut cache = MidhashCache::open(dir.path()).expect("open");
    assert_eq!(cache.get_midhash("10.1038/x").unwrap(), None);
    cache.put_midhash("10.1038/x", "bafyXYZ").expect("put");
    assert_eq!(
        cache.get_midhash("10.1038/x").unwrap().as_deref(),
        Some("bafyXYZ")
    );
}

#[test]
fn put_overwrites_existing_value() {
    let dir = tmp_cache_dir();
    let mut cache = MidhashCache::open(dir.path()).expect("open");
    cache.put_midhash("k", "v1").unwrap();
    cache.put_midhash("k", "v2").unwrap();
    assert_eq!(cache.get_midhash("k").unwrap().as_deref(), Some("v2"));
}

#[test]
fn values_persist_across_reopens() {
    let dir = tmp_cache_dir();
    {
        let mut cache = MidhashCache::open(dir.path()).expect("open 1");
        cache.put_midhash("k", "persistent").unwrap();
    }
    let cache = MidhashCache::open(dir.path()).expect("open 2");
    assert_eq!(
        cache.get_midhash("k").unwrap().as_deref(),
        Some("persistent")
    );
}

#[test]
fn tmdb_search_cache_distinguishes_miss_from_absent() {
    let dir = tmp_cache_dir();
    let mut cache = MidhashCache::open(dir.path()).expect("open");
    assert_eq!(cache.get_tmdb_search("m\u{1}naruto\u{1}").unwrap(), None);
    cache.put_tmdb_search("m\u{1}naruto\u{1}", "null").unwrap();
    assert_eq!(
        cache
            .get_tmdb_search("m\u{1}naruto\u{1}")
            .unwrap()
            .as_deref(),
        Some("null")
    );
    cache
        .put_tmdb_search("t\u{1}spy x family\u{1}2019", "{\"tmdbid\":120089}")
        .unwrap();
    drop(cache);
    let cache = MidhashCache::open(dir.path()).expect("reopen");
    assert_eq!(
        cache
            .get_tmdb_search("t\u{1}spy x family\u{1}2019")
            .unwrap()
            .as_deref(),
        Some("{\"tmdbid\":120089}")
    );
}

#[test]
fn tmdb_tvdetails_cache_roundtrips() {
    let dir = tmp_cache_dir();
    let mut cache = MidhashCache::open(dir.path()).expect("open");
    assert_eq!(cache.get_tmdb_tvdetails("120089").unwrap(), None);
    cache
        .put_tmdb_tvdetails("120089", "{\"number_of_seasons\":2}")
        .unwrap();
    assert_eq!(
        cache.get_tmdb_tvdetails("120089").unwrap().as_deref(),
        Some("{\"number_of_seasons\":2}")
    );
}

#[test]
fn entry_count_reflects_inserts() {
    let dir = tmp_cache_dir();
    let mut cache = MidhashCache::open(dir.path()).expect("open");
    assert_eq!(cache.entry_count().unwrap(), 0);
    cache.put_midhash("a", "x").unwrap();
    cache.put_midhash("b", "y").unwrap();
    assert_eq!(cache.entry_count().unwrap(), 2);
    cache.put_midhash("a", "x2").unwrap();
    assert_eq!(cache.entry_count().unwrap(), 2);
}

#[test]
fn round_trips_each_table_independently() {
    let dir = tempfile::tempdir().expect("tempdir");
    let mut c = MidhashCache::open(dir.path()).expect("open");

    c.put_mb_search("k", "v-search").unwrap();
    c.put_mb_release_group("k", "v-rg").unwrap();
    c.put_mb_artist("k", "v-artist").unwrap();
    c.put_mb_tracklist("k", "v-tracks").unwrap();
    c.put_ia_item("k", "v-ia").unwrap();

    // Same key in five tables must not collide.
    assert_eq!(c.get_mb_search("k").unwrap().as_deref(), Some("v-search"));
    assert_eq!(c.get_mb_release_group("k").unwrap().as_deref(), Some("v-rg"));
    assert_eq!(c.get_mb_artist("k").unwrap().as_deref(), Some("v-artist"));
    assert_eq!(c.get_mb_tracklist("k").unwrap().as_deref(), Some("v-tracks"));
    assert_eq!(c.get_ia_item("k").unwrap().as_deref(), Some("v-ia"));
    assert!(c.get_mb_search("absent").unwrap().is_none());
}

type Get = fn(&MidhashCache, &str) -> Result<Option<String>, CacheError>;
type Put = fn(&mut MidhashCache, &str, &str) -> Result<(), CacheError>;

fn text_tables() -> Vec<(&'static str, Get, Put)> {
    vec![
        ("midhash", MidhashCache::get_midhash, MidhashCache::put_midhash),
        ("mb_search", MidhashCache::get_mb_search, MidhashCache::put_mb_search),
        ("mb_release_group", MidhashCache::get_mb_release_group, MidhashCache::put_mb_release_group),
        ("mb_artist", MidhashCache::get_mb_artist, MidhashCache::put_mb_artist),
        ("mb_tracklist", MidhashCache::get_mb_tracklist, MidhashCache::put_mb_tracklist),
        ("ia_item", MidhashCache::get_ia_item, MidhashCache::put_ia_item),
        ("yt_channel", MidhashCache::get_yt_channel, MidhashCache::put_yt_channel),
        ("yt_search", MidhashCache::get_yt_search, MidhashCache::put_yt_search),
        ("jamendo_track", MidhashCache::get_jamendo_track, MidhashCache::put_jamendo_track),
        ("misc", MidhashCache::get_misc, MidhashCache::put_misc),
        ("cover_cid", MidhashCache::get_cover_cid, MidhashCache::put_cover_cid),
        ("fullhash", MidhashCache::get_fullhash, MidhashCache::put_fullhash),
        ("filelist", MidhashCache::get_filelist, MidhashCache::put_filelist),
        ("subtitles", MidhashCache::get_subtitles, MidhashCache::put_subtitles),
        ("opensubtitles", MidhashCache::get_opensubtitles, MidhashCache::put_opensubtitles),
        ("preview_cid", MidhashCache::get_preview_cid, MidhashCache::put_preview_cid),
        ("tmdb_search", MidhashCache::get_tmdb_search, MidhashCache::put_tmdb_search),
        ("tmdb_tvdetails", MidhashCache::get_tmdb_tvdetails, MidhashCache::put_tmdb_tvdetails),
        ("tmdb_extids", MidhashCache::get_tmdb_extids, MidhashCache::put_tmdb_extids),
        ("tmdb_moviedetails", MidhashCache::get_tmdb_moviedetails, MidhashCache::put_tmdb_moviedetails),
        ("tmdb_principal_topn", MidhashCache::get_tmdb_principal_topn, MidhashCache::put_tmdb_principal_topn),
        ("bibrec", MidhashCache::get_bibrec_json, MidhashCache::put_bibrec_json),
    ]
}

#[test]
fn every_text_table_has_rows_of_its_own_on_disk() {
    let dir = tmp_cache_dir();
    {
        let mut cache = MidhashCache::open(dir.path()).expect("open");
        for (name, _, put) in text_tables() {
            put(&mut cache, "k", name).unwrap();
        }
        for (name, get, _) in text_tables() {
            assert_eq!(get(&cache, "k").unwrap().as_deref(), Some(name));
            assert_eq!(get(&cache, "absent").unwrap(), None);
        }
    }
    // The file is where it is documented to be and holds the tables by name.
    let db = Database::open(dir.path().join(CACHE_FILENAME)).unwrap();
    let tx = db.begin_read().unwrap();
    for (name, _, _) in text_tables() {
        let table = tx.open_table(TableDefinition::<&str, &str>::new(name)).unwrap();
        assert_eq!(table.get("k").unwrap().unwrap().value(), name);
        assert_eq!(table.iter().unwrap().count(), 1);
    }
}

#[test]
fn open_creates_every_table() {
    let dir = tmp_cache_dir();
    drop(MidhashCache::open(dir.path()).expect("open"));
    let db = Database::open(dir.path().join("cache.redb")).unwrap();
    let tx = db.begin_read().unwrap();
    let mut names = Vec::new();
    for table in Table::all() {
        names.push(table.name());
        match table.kind() {
            Kind::Text => drop(tx.open_table(TableDefinition::<&str, &str>::new(table.name())).unwrap()),
            Kind::Blob => drop(tx.open_table(TableDefinition::<&str, &[u8]>::new(table.name())).unwrap()),
            Kind::Count => drop(tx.open_table(TableDefinition::<&str, u64>::new(table.name())).unwrap()),
        }
    }
    names.sort();
    names.dedup();
    assert_eq!(names.len(), 24);
    assert_eq!(tx.list_tables().unwrap().count(), 24);
}

#[test]
fn from_database_keeps_what_is_there() {
    let db = Database::builder().create_with_backend(InMemoryBackend::new()).unwrap();
    let tx = db.begin_write().unwrap();
    tx.open_table(TableDefinition::<&str, &str>::new("midhash")).unwrap().insert("old", "kept").unwrap();
    tx.commit().unwrap();
    let cache = MidhashCache::from_database(db).unwrap();
    assert_eq!(cache.get_midhash("old").unwrap().as_deref(), Some("kept"));
    assert_eq!(cache.entry_count().unwrap(), 1);
    assert_eq!(cache.get_misc("old").unwrap(), None);
}

#[test]
fn reopening_changes_nothing() {
    let dir = tmp_cache_dir();
    let path = dir.path().join(CACHE_FILENAME);
    {
        // A table of somebody else's, and an empty one.
        let db = Database::create(&path).unwrap();
        let tx = db.begin_write().unwrap();
        tx.open_table(TableDefinition::<&str, &str>::new("theirs")).unwrap().insert("k", "v").unwrap();
        drop(tx.open_table(TableDefinition::<&str, u64>::new("empty")).unwrap());
        tx.commit().unwrap();
    }
    let names = || {
        let db = Database::open(&path).unwrap();
        let tx = db.begin_read().unwrap();
        let theirs = tx.open_table(TableDefinition::<&str, &str>::new("theirs")).unwrap();
        assert_eq!(theirs.get("k").unwrap().unwrap().value(), "v");
        let mut names: Vec<String> = tx.list_tables().unwrap().map(|t| redb::TableHandle::name(&t).to_string()).collect();
        names.sort();
        names
    };
    MidhashCache::open(dir.path()).expect("open 1").put_midhash("k", "v1").unwrap();
    let first = names();
    assert_eq!(first.len(), 26);
    assert_eq!(MidhashCache::open(dir.path()).expect("open 2").get_midhash("k").unwrap().as_deref(), Some("v1"));
    assert_eq!(names(), first);
}

#[test]
fn a_table_of_another_type_is_refused() {
    let db = Database::builder().create_with_backend(InMemoryBackend::new()).unwrap();
    let tx = db.begin_write().unwrap();
    drop(tx.open_table(TableDefinition::<&str, u64>::new("midhash")).unwrap());
    tx.commit().unwrap();
    match MidhashCache::from_database(db) {
        Err(CacheError::Access(redb::Error::TableTypeMismatch { .. })) => {}
        _ => panic!("expected a type mismatch"),
    }
}

#[test]
fn a_directory_that_is_missing_is_an_open_error() {
    let dir = tmp_cache_dir();
    let missing = dir.path().join("missing");
    match MidhashCache::open(&missing) {
        Err(e) => {
            assert!(matches!(e, CacheError::Open(_)));
            assert!(matches!(e.into_inner(), redb::Error::Io(_)));
        }
        Ok(_) => panic!("opened a cache in a directory that does not exist"),
    }
}

#[test]
fn a_cache_file_has_one_owner() {
    let dir = tmp_cache_dir();
    let _cache = MidhashCache::open(dir.path()).expect("open");
    match MidhashCache::open(dir.path()) {
        Err(CacheError::Open(redb::Error::DatabaseAlreadyOpen)) => {}
        _ => panic!("opened a cache file twice"),
    }
}

#[test]
fn blobs_round_trip() {
    let dir = tmp_cache_dir();
    let mut cache = MidhashCache::open(dir.path()).expect("open");
    assert_eq!(cache.get_blob("cid").unwrap(), None);
    cache.put_blob("cid", &[0, 159, 146, 150, 255]).unwrap();
    cache.put_blob("empty", &[]).unwrap();
    assert_eq!(cache.get_blob("cid").unwrap(), Some(vec![0, 159, 146, 150, 255]));
    assert_eq!(cache.get_blob("empty").unwrap(), Some(vec![]));
    cache.put_blob("cid", b"new").unwrap();
    assert_eq!(cache.get_blob("cid").unwrap().as_deref(), Some(&b"new"[..]));
}

#[test]
fn quota_is_spent_up_to_the_budget_and_refused_after() {
    let dir = tmp_cache_dir();
    let mut cache = MidhashCache::open(dir.path()).expect("open");
    assert_eq!(cache.jamendo_quota_used("2024-05").unwrap(), 0);
    assert_eq!(cache.jamendo_quota_spend("2024-05", 2).unwrap(), Some(1));
    assert_eq!(cache.jamendo_quota_spend("2024-05", 2).unwrap(), Some(2));
    assert_eq!(cache.jamendo_quota_spend("2024-05", 2).unwrap(), None);
    assert_eq!(cache.jamendo_quota_used("2024-05").unwrap(), 2);
    // Months are accounted for apart, and a larger budget has room again.
    assert_eq!(cache.jamendo_quota_used("2024-06").unwrap(), 0);
    assert_eq!(cache.jamendo_quota_spend("2024-06", 1).unwrap(), Some(1));
    assert_eq!(cache.jamendo_quota_spend("2024-05", 3).unwrap(), Some(3));
    assert_eq!(cache.jamendo_quota_spend("2024-07", 0).unwrap(), None);
    assert_eq!(cache.jamendo_quota_used("2024-07").unwrap(), 0);
    drop(cache);
    let cache = MidhashCache::open(dir.path()).expect("reopen");
    assert_eq!(cache.jamendo_quota_used("2024-05").unwrap(), 3);
}

#[test]
fn next_spend_counts_up_to_the_budget() {
    assert_eq!(next_spend(0, 0), None);
    assert_eq!(next_spend(0, 1), Some(1));
    assert_eq!(next_spend(1, 1), None);
    assert_eq!(next_spend(7, 3), None);
    assert_eq!(next_spend(u64::MAX - 1, u64::MAX), Some(u64::MAX));
    assert_eq!(next_spend(u64::MAX, u64::MAX), None);
}

fn record(pairs: &[(&str, &str)]) -> BTreeMap<String, String> {
    pairs.iter().map(|(k, v)| (k.to_string(), v.to_string())).collect()
}

#[test]
fn bibrecs_round_trip() {
    let dir = tmp_cache_dir();
    let mut cache = MidhashCache::open(dir.path()).expect("open");
    assert_eq!(cache.get_bibrec("r").unwrap(), None);
    for fields in [
        record(&[]),
        record(&[("title", "Moby Dick"), ("author", "Melville")]),
        record(&[("", ""), ("quote\"\\", "line\nbreak\u{0}\u{7f}"), ("日本", "\u{2028}😀")]),
    ] {
        cache.put_bibrec("r", &fields).unwrap();
        assert_eq!(cache.get_bibrec("r").unwrap(), Some(fields));
    }
}

#[test]
fn a_bibrec_is_stored_as_a_json_object() {
    let dir = tmp_cache_dir();
    let mut cache = MidhashCache::open(dir.path()).expect("open");
    cache.put_bibrec("r", &record(&[("b", "2"), ("a", "1")])).unwrap();
    assert_eq!(cache.get_bibrec_json("r").unwrap().as_deref(), Some("{\"a\":\"1\",\"b\":\"2\"}"));
}

#[test]
fn a_bibrec_that_is_no_map_of_text_reads_as_none() {
    let dir = tmp_cache_dir();
    let mut cache = MidhashCache::open(dir.path()).expect("open");
    for json in ["", "null", "[]", "{\"a\":1}", "{\"a\":\"1\"", "{} x"] {
        cache.put_bibrec_json("r", json).unwrap();
        assert_eq!(cache.get_bibrec("r").unwrap(), None);
        assert_eq!(cache.get_bibrec_json("r").unwrap().as_deref(), Some(json));
    }
    cache.put_bibrec_json("r", " { \"a\" : \"1\" } ").unwrap();
    assert_eq!(cache.get_bibrec("r").unwrap(), Some(record(&[("a", "1")])));
}

#[test]
fn json_that_cannot_be_made_is_an_empty_object() {
    assert_eq!(json_or_empty(Ok("{\"a\":\"1\"}".to_string())), "{\"a\":\"1\"}");
    let error = serde_json::from_str::<u8>("x").unwrap_err();
    assert_eq!(json_or_empty(Err(error)), "{}");
}

/// Storage whose writes can be made to fail.
#[derive(Debug)]
struct Flaky {
    inner: InMemoryBackend,
    broken: Arc<AtomicBool>,
}

impl Flaky {
    fn check(&self) -> Result<(), std::io::Error> {
        if self.broken.load(Ordering::SeqCst) {
            Err(std::io::Error::new(std::io::ErrorKind::Other, "broken"))
        } else {
            Ok(())
        }
    }
}

impl StorageBackend for Flaky {
    fn len(&self) -> Result<u64, std::io::Error> {
        self.inner.len()
    }

    fn read(&self, offset: u64, len: usize) -> Result<Vec<u8>, std::io::Error> {
        self.inner.read(offset, len)
    }

    fn set_len(&self, len: u64) -> Result<(), std::io::Error> {
        self.check()?;
        self.inner.set_len(len)
    }

    fn sync_data(&self, eventual: bool) -> Result<(), std::io::Error> {
        self.check()?;
        self.inner.sync_data(eventual)
    }

    fn write(&self, offset: u64, data: &[u8]) -> Result<(), std::io::Error> {
        self.check()?;
        self.inner.write(offset, data)
    }
}

#[test]
fn storage_that_breaks_fails_the_commit_and_then_every_write() {
    let broken = Arc::new(AtomicBool::new(false));
    let backend = Flaky { inner: InMemoryBackend::new(), broken: broken.clone() };
    let db = Database::builder().create_with_backend(backend).unwrap();
    let mut cache = MidhashCache::from_database(db).unwrap();
    cache.put_misc("k", "old").unwrap();
    broken.store(true, Ordering::SeqCst);
    assert!(matches!(cache.put_misc("k", "new"), Err(CacheError::Commit(_))));
    assert!(matches!(cache.put_misc("k", "newer"), Err(CacheError::Begin(_))));
    assert!(matches!(cache.jamendo_quota_spend("2024-05", 1), Err(CacheError::Begin(_))));
}

#[test]
fn the_cache_file_is_in_the_cache_directory() {
    let dir = tmp_cache_dir();
    assert_eq!(CACHE_FILENAME, "cache.redb");
    assert_eq!(cache_file(dir.path()), dir.path().join("cache.redb"));
    assert!(!cache_file(dir.path()).exists());
    drop(MidhashCache::open(dir.path()).expect("open"));
    assert!(cache_file(dir.path()).exists());
}

#[test]
fn a_fresh_cache_is_empty() {
    let dir = tmp_cache_dir();
    let cache = MidhashCache::open(dir.path()).expect("open");
    for (_, get, _) in text_tables() {
        assert_eq!(get(&cache, "k").unwrap(), None);
    }
    assert_eq!(cache.get_blob("k").unwrap(), None);
    assert_eq!(cache.get_bibrec("k").unwrap(), None);
    assert_eq!(cache.entry_count().unwrap(), 0);
    assert_eq!(cache.jamendo_quota_used("2024-05").unwrap(), 0);
}

#[test]
fn a_history_of_spends_writes_and_reopenings_adds_up() {
    let dir = tmp_cache_dir();
    let mut cache = MidhashCache::open(dir.path()).expect("open 1");
    assert_eq!(cache.jamendo_quota_spend("2024-05", 3).unwrap(), Some(1));
    cache.put_misc("2024-05", "misc").unwrap();
    cache.put_blob("2024-05", &[1, 2]).unwrap();
    assert_eq!(cache.jamendo_quota_spend("2024-06", 3).unwrap(), Some(1));
    drop(cache);
    let mut cache = MidhashCache::open(dir.path()).expect("open 2");
    assert_eq!(cache.jamendo_quota_spend("2024-05", 3).unwrap(), Some(2));
    cache.put_midhash("2024-05", "hash").unwrap();
    assert_eq!(cache.jamendo_quota_spend("2024-05", 2).unwrap(), None);
    assert_eq!(cache.jamendo_quota_used("2024-05").unwrap(), 2);
    assert_eq!(cache.jamendo_quota_used("2024-05").unwrap(), 2);
    assert_eq!(cache.jamendo_quota_used("2024-06").unwrap(), 1);
    assert_eq!(cache.get_misc("2024-05").unwrap().as_deref(), Some("misc"));
    assert_eq!(cache.get_blob("2024-05").unwrap(), Some(vec![1, 2]));
    assert_eq!(cache.get_blob("2024-06").unwrap(), None);
}

#[test]
fn storage_that_cannot_grow_fails_the_write_and_keeps_what_is_committed() {
    let broken = Arc::new(AtomicBool::new(false));
    let backend = Flaky { inner: InMemoryBackend::new(), broken: broken.clone() };
    let db = Database::builder().create_with_backend(backend).unwrap();
    let mut cache = MidhashCache::from_database(db).unwrap();
    cache.put_blob("cid", &[7]).unwrap();
    broken.store(true, Ordering::SeqCst);
    let large = vec![0; 32 * 1024 * 1024];
    assert!(matches!(cache.put_blob("cid", &large), Err(CacheError::Access(_))));
    assert!(matches!(cache.put_blob("cid", &[8]), Err(CacheError::Begin(_))));
}
