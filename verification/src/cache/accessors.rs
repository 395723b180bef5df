//! The text tables of the cache, each with a reader and a writer.

use super::table::Table;
use super::{
    found_text, lookup, read_error, read_refused, write_refused, written, CacheError, Cell,
    MidhashCache,
};
use vstd::prelude::*;

verus! {

impl MidhashCache {
    /// Reads what `key` is mapped to in [`Table::Midhash`].
    pub fn get_midhash(&self, key: &str) -> (r: Result<Option<String>, CacheError>)
        ensures
            r matches Ok(value) ==> found_text(value) == lookup(self@, Table::Midhash, key@),
            r matches Err(e) ==> read_error(e),
            r matches Err(e) ==> read_refused(*self, Table::Midhash, key@, e),
    {
        self.get_text(Table::Midhash, key)
    }

    /// Maps `key` to `value` in [`Table::Midhash`].
    pub fn put_midhash(&mut self, key: &str, value: &str) -> (r: Result<(), CacheError>)
        ensures
            written(old(self)@, final(self)@, Table::Midhash, key@, Cell::Text(value@), r),
            r matches Err(e) ==> write_refused(*old(self), Table::Midhash, key@, Cell::Text(value@), e),
            final(self).file() == old(self).file(),
    {
        self.put_text(Table::Midhash, key, value)
    }

    /// Reads what `key` is mapped to in [`Table::MbSearch`].
    pub fn get_mb_search(&self, key: &str) -> (r: Result<Option<String>, CacheError>)
        ensures
            r matches Ok(value) ==> found_text(value) == lookup(self@, Table::MbSearch, key@),
            r matches Err(e) ==> read_error(e),
            r matches Err(e) ==> read_refused(*self, Table::MbSearch, key@, e),
    {
        self.get_text(Table::MbSearch, key)
    }

    /// Maps `key` to `value` in [`Table::MbSearch`].
    pub fn put_mb_search(&mut self, key: &str, value: &str) -> (r: Result<(), CacheError>)
        ensures
            written(old(self)@, final(self)@, Table::MbSearch, key@, Cell::Text(value@), r),
            r matches Err(e) ==> write_refused(*old(self), Table::MbSearch, key@, Cell::Text(value@), e),
            final(self).file() == old(self).file(),
    {
        self.put_text(Table::MbSearch, key, value)
    }

    /// Reads what `key` is mapped to in [`Table::MbReleaseGroup`].
    pub fn get_mb_release_group(&self, key: &str) -> (r: Result<Option<String>, CacheError>)
        ensures
            r matches Ok(value) ==> found_text(value) == lookup(self@, Table::MbReleaseGroup, key@),
            r matches Err(e) ==> read_error(e),
            r matches Err(e) ==> read_refused(*self, Table::MbReleaseGroup, key@, e),
    {
        self.get_text(Table::MbReleaseGroup, key)
    }

    /// Maps `key` to `value` in [`Table::MbReleaseGroup`].
    pub fn put_mb_release_group(&mut self, key: &str, value: &str) -> (r: Result<(), CacheError>)
        ensures
            written(old(self)@, final(self)@, Table::MbReleaseGroup, key@, Cell::Text(value@), r),
            r matches Err(e) ==> write_refused(*old(self), Table::MbReleaseGroup, key@, Cell::Text(value@), e),
            final(self).file() == old(self).file(),
    {
        self.put_text(Table::MbReleaseGroup, key, value)
    }

    /// Reads what `key` is mapped to in [`Table::MbArtist`].
    pub fn get_mb_artist(&self, key: &str) -> (r: Result<Option<String>, CacheError>)
        ensures
            r matches Ok(value) ==> found_text(value) == lookup(self@, Table::MbArtist, key@),
            r matches Err(e) ==> read_error(e),
            r matches Err(e) ==> read_refused(*self, Table::MbArtist, key@, e),
    {
        self.get_text(Table::MbArtist, key)
    }

    /// Maps `key` to `value` in [`Table::MbArtist`].
    pub fn put_mb_artist(&mut self, key: &str, value: &str) -> (r: Result<(), CacheError>)
        ensures
            written(old(self)@, final(self)@, Table::MbArtist, key@, Cell::Text(value@), r),
            r matches Err(e) ==> write_refused(*old(self), Table::MbArtist, key@, Cell::Text(value@), e),
            final(self).file() == old(self).file(),
    {
        self.put_text(Table::MbArtist, key, value)
    }

    /// Reads what `key` is mapped to in [`Table::MbTracklist`].
    pub fn get_mb_tracklist(&self, key: &str) -> (r: Result<Option<String>, CacheError>)
        ensures
            r matches Ok(value) ==> found_text(value) == lookup(self@, Table::MbTracklist, key@),
            r matches Err(e) ==> read_error(e),
            r matches Err(e) ==> read_refused(*self, Table::MbTracklist, key@, e),
    {
        self.get_text(Table::MbTracklist, key)
    }

    /// Maps `key` to `value` in [`Table::MbTracklist`].
    pub fn put_mb_tracklist(&mut self, key: &str, value: &str) -> (r: Result<(), CacheError>)
        ensures
            written(old(self)@, final(self)@, Table::MbTracklist, key@, Cell::Text(value@), r),
            r matches Err(e) ==> write_refused(*old(self), Table::MbTracklist, key@, Cell::Text(value@), e),
            final(self).file() == old(self).file(),
    {
        self.put_text(Table::MbTracklist, key, value)
    }

    /// Reads what `key` is mapped to in [`Table::IaItem`].
    pub fn get_ia_item(&self, key: &str) -> (r: Result<Option<String>, CacheError>)
        ensures
            r matches Ok(value) ==> found_text(value) == lookup(self@, Table::IaItem, key@),
            r matches Err(e) ==> read_error(e),
            r matches Err(e) ==> read_refused(*self, Table::IaItem, key@, e),
    {
        self.get_text(Table::IaItem, key)
    }

    /// Maps `key` to `value` in [`Table::IaItem`].
    pub fn put_ia_item(&mut self, key: &str, value: &str) -> (r: Result<(), CacheError>)
        ensures
            written(old(self)@, final(self)@, Table::IaItem, key@, Cell::Text(value@), r),
            r matches Err(e) ==> write_refused(*old(self), Table::IaItem, key@, Cell::Text(value@), e),
            final(self).file() == old(self).file(),
    {
        self.put_text(Table::IaItem, key, value)
    }

    /// Reads what `key` is mapped to in [`Table::YtChannel`].
    pub fn get_yt_channel(&self, key: &str) -> (r: Result<Option<String>, CacheError>)
        ensures
            r matches Ok(value) ==> found_text(value) == lookup(self@, Table::YtChannel, key@),
            r matches Err(e) ==> read_error(e),
            r matches Err(e) ==> read_refused(*self, Table::YtChannel, key@, e),
    {
        self.get_text(Table::YtChannel, key)
    }

    /// Maps `key` to `value` in [`Table::YtChannel`].
    pub fn put_yt_channel(&mut self, key: &str, value: &str) -> (r: Result<(), CacheError>)
        ensures
            written(old(self)@, final(self)@, Table::YtChannel, key@, Cell::Text(value@), r),
            r matches Err(e) ==> write_refused(*old(self), Table::YtChannel, key@, Cell::Text(value@), e),
            final(self).file() == old(self).file(),
    {
        self.put_text(Table::YtChannel, key, value)
    }

    /// Reads what `key` is mapped to in [`Table::YtSearch`].
    pub fn get_yt_search(&self, key: &str) -> (r: Result<Option<String>, CacheError>)
        ensures
            r matches Ok(value) ==> found_text(value) == lookup(self@, Table::YtSearch, key@),
            r matches Err(e) ==> read_error(e),
            r matches Err(e) ==> read_refused(*self, Table::YtSearch, key@, e),
    {
        self.get_text(Table::YtSearch, key)
    }

    /// Maps `key` to `value` in [`Table::YtSearch`].
    pub fn put_yt_search(&mut self, key: &str, value: &str) -> (r: Result<(), CacheError>)
        ensures
            written(old(self)@, final(self)@, Table::YtSearch, key@, Cell::Text(value@), r),
            r matches Err(e) ==> write_refused(*old(self), Table::YtSearch, key@, Cell::Text(value@), e),
            final(self).file() == old(self).file(),
    {
        self.put_text(Table::YtSearch, key, value)
    }

    /// Reads what `key` is mapped to in [`Table::JamendoTrack`].
    pub fn get_jamendo_track(&self, key: &str) -> (r: Result<Option<String>, CacheError>)
        ensures
            r matches Ok(value) ==> found_text(value) == lookup(self@, Table::JamendoTrack, key@),
            r matches Err(e) ==> read_error(e),
            r matches Err(e) ==> read_refused(*self, Table::JamendoTrack, key@, e),
    {
        self.get_text(Table::JamendoTrack, key)
    }

    /// Maps `key` to `value` in [`Table::JamendoTrack`].
    pub fn put_jamendo_track(&mut self, key: &str, value: &str) -> (r: Result<(), CacheError>)
        ensures
            written(old(self)@, final(self)@, Table::JamendoTrack, key@, Cell::Text(value@), r),
            r matches Err(e) ==> write_refused(*old(self), Table::JamendoTrack, key@, Cell::Text(value@), e),
            final(self).file() == old(self).file(),
    {
        self.put_text(Table::JamendoTrack, key, value)
    }

    /// Reads a durable plugin scratch value.
    pub fn get_misc(&self, key: &str) -> (r: Result<Option<String>, CacheError>)
        ensures
            r matches Ok(value) ==> found_text(value) == lookup(self@, Table::Misc, key@),
            r matches Err(e) ==> read_error(e),
            r matches Err(e) ==> read_refused(*self, Table::Misc, key@, e),
    {
        self.get_text(Table::Misc, key)
    }

    /// Writes a durable plugin scratch value.
    pub fn put_misc(&mut self, key: &str, value: &str) -> (r: Result<(), CacheError>)
        ensures
            written(old(self)@, final(self)@, Table::Misc, key@, Cell::Text(value@), r),
            r matches Err(e) ==> write_refused(*old(self), Table::Misc, key@, Cell::Text(value@), e),
            final(self).file() == old(self).file(),
    {
        self.put_text(Table::Misc, key, value)
    }

    /// Reads what `key` is mapped to in [`Table::CoverCid`].
    pub fn get_cover_cid(&self, key: &str) -> (r: Result<Option<String>, CacheError>)
        ensures
            r matches Ok(value) ==> found_text(value) == lookup(self@, Table::CoverCid, key@),
            r matches Err(e) ==> read_error(e),
            r matches Err(e) ==> read_refused(*self, Table::CoverCid, key@, e),
    {
        self.get_text(Table::CoverCid, key)
    }

    /// Maps `key` to `value` in [`Table::CoverCid`].
    pub fn put_cover_cid(&mut self, key: &str, value: &str) -> (r: Result<(), CacheError>)
        ensures
            written(old(self)@, final(self)@, Table::CoverCid, key@, Cell::Text(value@), r),
            r matches Err(e) ==> write_refused(*old(self), Table::CoverCid, key@, Cell::Text(value@), e),
            final(self).file() == old(self).file(),
    {
        self.put_text(Table::CoverCid, key, value)
    }

    /// Reads a previously stored full-file cid.
    pub fn get_fullhash(&self, key: &str) -> (r: Result<Option<String>, CacheError>)
        ensures
            r matches Ok(value) ==> found_text(value) == lookup(self@, Table::Fullhash, key@),
            r matches Err(e) ==> read_error(e),
            r matches Err(e) ==> read_refused(*self, Table::Fullhash, key@, e),
    {
        self.get_text(Table::Fullhash, key)
    }

    /// Records the cid produced by a successful full fetch.
    pub fn put_fullhash(&mut self, key: &str, value: &str) -> (r: Result<(), CacheError>)
        ensures
            written(old(self)@, final(self)@, Table::Fullhash, key@, Cell::Text(value@), r),
            r matches Err(e) ==> write_refused(*old(self), Table::Fullhash, key@, Cell::Text(value@), e),
            final(self).file() == old(self).file(),
    {
        self.put_text(Table::Fullhash, key, value)
    }

    /// Reads the cached torrent file list, as JSON.
    pub fn get_filelist(&self, key: &str) -> (r: Result<Option<String>, CacheError>)
        ensures
            r matches Ok(value) ==> found_text(value) == lookup(self@, Table::Filelist, key@),
            r matches Err(e) ==> read_error(e),
            r matches Err(e) ==> read_refused(*self, Table::Filelist, key@, e),
    {
        self.get_text(Table::Filelist, key)
    }

    /// Caches the enumerated torrent file list, as JSON.
    pub fn put_filelist(&mut self, key: &str, value: &str) -> (r: Result<(), CacheError>)
        ensures
            written(old(self)@, final(self)@, Table::Filelist, key@, Cell::Text(value@), r),
            r matches Err(e) ==> write_refused(*old(self), Table::Filelist, key@, Cell::Text(value@), e),
            final(self).file() == old(self).file(),
    {
        self.put_text(Table::Filelist, key, value)
    }

    /// Reads the cached subtitle linkage, as JSON.
    pub fn get_subtitles(&self, key: &str) -> (r: Result<Option<String>, CacheError>)
        ensures
            r matches Ok(value) ==> found_text(value) == lookup(self@, Table::Subtitles, key@),
            r matches Err(e) ==> read_error(e),
            r matches Err(e) ==> read_refused(*self, Table::Subtitles, key@, e),
    {
        self.get_text(Table::Subtitles, key)
    }

    /// Caches the discovered subtitle linkage, as JSON.
    pub fn put_subtitles(&mut self, key: &str, value: &str) -> (r: Result<(), CacheError>)
        ensures
            written(old(self)@, final(self)@, Table::Subtitles, key@, Cell::Text(value@), r),
            r matches Err(e) ==> write_refused(*old(self), Table::Subtitles, key@, Cell::Text(value@), e),
            final(self).file() == old(self).file(),
    {
        self.put_text(Table::Subtitles, key, value)
    }

    /// Reads a cached OpenSubtitles lookup.
    pub fn get_opensubtitles(&self, key: &str) -> (r: Result<Option<String>, CacheError>)
        ensures
            r matches Ok(value) ==> found_text(value) == lookup(self@, Table::Opensubtitles, key@),
            r matches Err(e) ==> read_error(e),
            r matches Err(e) ==> read_refused(*self, Table::Opensubtitles, key@, e),
    {
        self.get_text(Table::Opensubtitles, key)
    }

    /// Caches an OpenSubtitles lookup result: a cid, or `null` for none.
    pub fn put_opensubtitles(&mut self, key: &str, value: &str) -> (r: Result<(), CacheError>)
        ensures
            written(old(self)@, final(self)@, Table::Opensubtitles, key@, Cell::Text(value@), r),
            r matches Err(e) ==> write_refused(*old(self), Table::Opensubtitles, key@, Cell::Text(value@), e),
            final(self).file() == old(self).file(),
    {
        self.put_text(Table::Opensubtitles, key, value)
    }

    /// Reads what `key` is mapped to in [`Table::PreviewCid`].
    pub fn get_preview_cid(&self, key: &str) -> (r: Result<Option<String>, CacheError>)
        ensures
            r matches Ok(value) ==> found_text(value) == lookup(self@, Table::PreviewCid, key@),
            r matches Err(e) ==> read_error(e),
            r matches Err(e) ==> read_refused(*self, Table::PreviewCid, key@, e),
    {
        self.get_text(Table::PreviewCid, key)
    }

    /// Maps `key` to `value` in [`Table::PreviewCid`].
    pub fn put_preview_cid(&mut self, key: &str, value: &str) -> (r: Result<(), CacheError>)
        ensures
            written(old(self)@, final(self)@, Table::PreviewCid, key@, Cell::Text(value@), r),
            r matches Err(e) ==> write_refused(*old(self), Table::PreviewCid, key@, Cell::Text(value@), e),
            final(self).file() == old(self).file(),
    {
        self.put_text(Table::PreviewCid, key, value)
    }

    /// Reads a cached TMDB search result by lookup key.
    pub fn get_tmdb_search(&self, key: &str) -> (r: Result<Option<String>, CacheError>)
        ensures
            r matches Ok(value) ==> found_text(value) == lookup(self@, Table::TmdbSearch, key@),
            r matches Err(e) ==> read_error(e),
            r matches Err(e) ==> read_refused(*self, Table::TmdbSearch, key@, e),
    {
        self.get_text(Table::TmdbSearch, key)
    }

    /// Caches a TMDB search result under `key`.
    pub fn put_tmdb_search(&mut self, key: &str, value: &str) -> (r: Result<(), CacheError>)
        ensures
            written(old(self)@, final(self)@, Table::TmdbSearch, key@, Cell::Text(value@), r),
            r matches Err(e) ==> write_refused(*old(self), Table::TmdbSearch, key@, Cell::Text(value@), e),
            final(self).file() == old(self).file(),
    {
        self.put_text(Table::TmdbSearch, key, value)
    }

    /// Reads cached TMDB series details by TMDB id.
    pub fn get_tmdb_tvdetails(&self, key: &str) -> (r: Result<Option<String>, CacheError>)
        ensures
            r matches Ok(value) ==> found_text(value) == lookup(self@, Table::TmdbTvdetails, key@),
            r matches Err(e) ==> read_error(e),
            r matches Err(e) ==> read_refused(*self, Table::TmdbTvdetails, key@, e),
    {
        self.get_text(Table::TmdbTvdetails, key)
    }

    /// Caches TMDB series details under their TMDB id.
    pub fn put_tmdb_tvdetails(&mut self, key: &str, value: &str) -> (r: Result<(), CacheError>)
        ensures
            written(old(self)@, final(self)@, Table::TmdbTvdetails, key@, Cell::Text(value@), r),
            r matches Err(e) ==> write_refused(*old(self), Table::TmdbTvdetails, key@, Cell::Text(value@), e),
            final(self).file() == old(self).file(),
    {
        self.put_text(Table::TmdbTvdetails, key, value)
    }

    /// Reads cached TMDB external ids by TMDB id.
    pub fn get_tmdb_extids(&self, key: &str) -> (r: Result<Option<String>, CacheError>)
        ensures
            r matches Ok(value) ==> found_text(value) == lookup(self@, Table::TmdbExtids, key@),
            r matches Err(e) ==> read_error(e),
            r matches Err(e) ==> read_refused(*self, Table::TmdbExtids, key@, e),
    {
        self.get_text(Table::TmdbExtids, key)
    }

    /// Caches TMDB external ids under their TMDB id.
    pub fn put_tmdb_extids(&mut self, key: &str, value: &str) -> (r: Result<(), CacheError>)
        ensures
            written(old(self)@, final(self)@, Table::TmdbExtids, key@, Cell::Text(value@), r),
            r matches Err(e) ==> write_refused(*old(self), Table::TmdbExtids, key@, Cell::Text(value@), e),
            final(self).file() == old(self).file(),
    {
        self.put_text(Table::TmdbExtids, key, value)
    }

    /// Reads cached TMDB movie details by TMDB id.
    pub fn get_tmdb_moviedetails(&self, key: &str) -> (r: Result<Option<String>, CacheError>)
        ensures
            r matches Ok(value) ==> found_text(value) == lookup(self@, Table::TmdbMoviedetails, key@),
            r matches Err(e) ==> read_error(e),
            r matches Err(e) ==> read_refused(*self, Table::TmdbMoviedetails, key@, e),
    {
        self.get_text(Table::TmdbMoviedetails, key)
    }

    /// Caches TMDB movie details under their TMDB id.
    pub fn put_tmdb_moviedetails(&mut self, key: &str, value: &str) -> (r: Result<(), CacheError>)
        ensures
            written(old(self)@, final(self)@, Table::TmdbMoviedetails, key@, Cell::Text(value@), r),
            r matches Err(e) ==> write_refused(*old(self), Table::TmdbMoviedetails, key@, Cell::Text(value@), e),
            final(self).file() == old(self).file(),
    {
        self.put_text(Table::TmdbMoviedetails, key, value)
    }

    /// Reads the cached ranked anchor list by normalised query.
    pub fn get_tmdb_principal_topn(&self, key: &str) -> (r: Result<Option<String>, CacheError>)
        ensures
            r matches Ok(value) ==> found_text(value) == lookup(self@, Table::TmdbPrincipalTopn, key@),
            r matches Err(e) ==> read_error(e),
            r matches Err(e) ==> read_refused(*self, Table::TmdbPrincipalTopn, key@, e),
    {
        self.get_text(Table::TmdbPrincipalTopn, key)
    }

    /// Caches the ranked anchor list under the normalised query.
    pub fn put_tmdb_principal_topn(&mut self, key: &str, value: &str) -> (r: Result<(), CacheError>)
        ensures
            written(old(self)@, final(self)@, Table::TmdbPrincipalTopn, key@, Cell::Text(value@), r),
            r matches Err(e) ==> write_refused(*old(self), Table::TmdbPrincipalTopn, key@, Cell::Text(value@), e),
            final(self).file() == old(self).file(),
    {
        self.put_text(Table::TmdbPrincipalTopn, key, value)
    }
}

} // verus!
