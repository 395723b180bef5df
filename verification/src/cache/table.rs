//! The tables of a plugin's cache.

use vstd::prelude::*;

verus! {

/// What the values of a table are.
#[derive(Debug, Clone, Copy, PartialEq, Eq, Structural)]
pub enum Kind {
    Text,
    Blob,
    Count,
}

/// A table of the cache. All keys are text.
#[derive(Debug, Clone, Copy, PartialEq, Eq, Structural)]
pub enum Table {
    /// Hashes of upstream files keyed by the upstream's record id.
    Midhash,
    /// Raw bytes keyed by cid.
    Blobs,
    /// Cover cids keyed by record id.
    CoverCid,
    /// Bibliographic records, as JSON objects, keyed by record id.
    Bibrec,
    /// Preview cids keyed by record id.
    PreviewCid,
    /// Full-file cids of payloads that were fetched, keyed by record id. Distinct
    /// from [`Table::Midhash`] because the hash families differ.
    Fullhash,
    /// Enumerated torrent file lists, as JSON, keyed by record id.
    Filelist,
    /// TMDB search results keyed by a stable lookup key, or the literal `null` for
    /// a search that found nothing.
    TmdbSearch,
    /// TMDB series details keyed by TMDB id.
    TmdbTvdetails,
    /// TMDB external ids keyed by TMDB id.
    TmdbExtids,
    /// TMDB movie details keyed by TMDB id.
    TmdbMoviedetails,
    /// Ranked TMDB anchors keyed by the normalised free-text query.
    TmdbPrincipalTopn,
    /// Subtitle linkage, as JSON, keyed by record id.
    Subtitles,
    /// OpenSubtitles results keyed by TMDB id and language, or the literal `null`.
    Opensubtitles,
    /// Small durable plugin values that must survive a restart but are not derived
    /// from content. Keys are plugin-namespaced.
    Misc,
    /// Ranked MusicBrainz search results, see [`crate::cache::search_key`].
    MbSearch,
    /// Release-group details keyed by MBID.
    MbReleaseGroup,
    /// Artist details keyed by MBID.
    MbArtist,
    /// A release-group's track list keyed by its MBID.
    MbTracklist,
    /// Internet Archive file listings keyed by item identifier.
    IaItem,
    /// An artist's YouTube channel keys, keyed by artist MBID. Only ever holds a
    /// positive result: a failed lookup says nothing about the artist.
    YtChannel,
    /// Piped song results keyed by the normalised search text.
    YtSearch,
    /// Jamendo track details keyed by track id.
    JamendoTrack,
    /// Jamendo API calls spent, keyed by UTC `YYYY-MM`. Not a cache but a ledger:
    /// deleting it resets the month's spend while the upstream's own counter keeps
    /// climbing.
    JamendoQuota,
}

impl Table {
    /// The name under which the table is stored.
    pub open spec fn spec_name(self) -> Seq<char> {
        match self {
            Table::Midhash => "midhash"@,
            Table::Blobs => "blobs"@,
            Table::CoverCid => "cover_cid"@,
            Table::Bibrec => "bibrec"@,
            Table::PreviewCid => "preview_cid"@,
            Table::Fullhash => "fullhash"@,
            Table::Filelist => "filelist"@,
            Table::TmdbSearch => "tmdb_search"@,
            Table::TmdbTvdetails => "tmdb_tvdetails"@,
            Table::TmdbExtids => "tmdb_extids"@,
            Table::TmdbMoviedetails => "tmdb_moviedetails"@,
            Table::TmdbPrincipalTopn => "tmdb_principal_topn"@,
            Table::Subtitles => "subtitles"@,
            Table::Opensubtitles => "opensubtitles"@,
            Table::Misc => "misc"@,
            Table::MbSearch => "mb_search"@,
            Table::MbReleaseGroup => "mb_release_group"@,
            Table::MbArtist => "mb_artist"@,
            Table::MbTracklist => "mb_tracklist"@,
            Table::IaItem => "ia_item"@,
            Table::YtChannel => "yt_channel"@,
            Table::YtSearch => "yt_search"@,
            Table::JamendoTrack => "jamendo_track"@,
            Table::JamendoQuota => "jamendo_quota"@,
        }
    }

    /// What the values of the table are.
    pub open spec fn spec_kind(self) -> Kind {
        match self {
            Table::Blobs => Kind::Blob,
            Table::JamendoQuota => Kind::Count,
            _ => Kind::Text,
        }
    }

    /// The name under which the table is stored.
    pub fn name(self) -> (name: &'static str)
        ensures
            name@ == self.spec_name(),
            name@.len() > 0,
    {
        proof {
            lemma_name(self);
        }
        match self {
            Table::Midhash => "midhash",
            Table::Blobs => "blobs",
            Table::CoverCid => "cover_cid",
            Table::Bibrec => "bibrec",
            Table::PreviewCid => "preview_cid",
            Table::Fullhash => "fullhash",
            Table::Filelist => "filelist",
            Table::TmdbSearch => "tmdb_search",
            Table::TmdbTvdetails => "tmdb_tvdetails",
            Table::TmdbExtids => "tmdb_extids",
            Table::TmdbMoviedetails => "tmdb_moviedetails",
            Table::TmdbPrincipalTopn => "tmdb_principal_topn",
            Table::Subtitles => "subtitles",
            Table::Opensubtitles => "opensubtitles",
            Table::Misc => "misc",
            Table::MbSearch => "mb_search",
            Table::MbReleaseGroup => "mb_release_group",
            Table::MbArtist => "mb_artist",
            Table::MbTracklist => "mb_tracklist",
            Table::IaItem => "ia_item",
            Table::YtChannel => "yt_channel",
            Table::YtSearch => "yt_search",
            Table::JamendoTrack => "jamendo_track",
            Table::JamendoQuota => "jamendo_quota",
        }
    }

    /// What the values of the table are.
    pub fn kind(self) -> (kind: Kind)
        ensures
            kind == self.spec_kind(),
    {
        match self {
            Table::Blobs => Kind::Blob,
            Table::JamendoQuota => Kind::Count,
            _ => Kind::Text,
        }
    }

    /// Every table, each once.
    pub fn all() -> (tables: Vec<Table>)
        ensures
            forall|table: Table| #[trigger] tables@.contains(table),
            tables@.no_duplicates(),
    {
        let tables: Vec<Table> = vec![
            Table::Midhash,
            Table::Blobs,
            Table::CoverCid,
            Table::Bibrec,
            Table::PreviewCid,
            Table::Fullhash,
            Table::Filelist,
            Table::TmdbSearch,
            Table::TmdbTvdetails,
            Table::TmdbExtids,
            Table::TmdbMoviedetails,
            Table::TmdbPrincipalTopn,
            Table::Subtitles,
            Table::Opensubtitles,
            Table::Misc,
            Table::MbSearch,
            Table::MbReleaseGroup,
            Table::MbArtist,
            Table::MbTracklist,
            Table::IaItem,
            Table::YtChannel,
            Table::YtSearch,
            Table::JamendoTrack,
            Table::JamendoQuota,
        ];
        proof {
            assert forall|table: Table| #[trigger] tables@.contains(table) by {
                let i: int = table.position();
                assert(tables@[i] == table);
            }
            assert forall|i: int, j: int|
                0 <= i < tables@.len() && 0 <= j < tables@.len() && i != j implies tables@[i]
                != tables@[j] by {
                assert(tables@[i].position() == i);
                assert(tables@[j].position() == j);
            }
        }
        tables
    }

    /// The table's place in [`Table::all`].
    spec fn position(self) -> int {
        match self {
            Table::Midhash => 0,
            Table::Blobs => 1,
            Table::CoverCid => 2,
            Table::Bibrec => 3,
            Table::PreviewCid => 4,
            Table::Fullhash => 5,
            Table::Filelist => 6,
            Table::TmdbSearch => 7,
            Table::TmdbTvdetails => 8,
            Table::TmdbExtids => 9,
            Table::TmdbMoviedetails => 10,
            Table::TmdbPrincipalTopn => 11,
            Table::Subtitles => 12,
            Table::Opensubtitles => 13,
            Table::Misc => 14,
            Table::MbSearch => 15,
            Table::MbReleaseGroup => 16,
            Table::MbArtist => 17,
            Table::MbTracklist => 18,
            Table::IaItem => 19,
            Table::YtChannel => 20,
            Table::YtSearch => 21,
            Table::JamendoTrack => 22,
            Table::JamendoQuota => 23,
        }
    }
}

/// What tells the names apart: how long each is, how it begins and how it ends.
spec fn ends(table: Table) -> (int, char, char) {
    match table {
        Table::Midhash => (7, 'm', 'h'),
        Table::Blobs => (5, 'b', 's'),
        Table::CoverCid => (9, 'c', 'd'),
        Table::Bibrec => (6, 'b', 'c'),
        Table::PreviewCid => (11, 'p', 'd'),
        Table::Fullhash => (8, 'f', 'h'),
        Table::Filelist => (8, 'f', 't'),
        Table::TmdbSearch => (11, 't', 'h'),
        Table::TmdbTvdetails => (14, 't', 's'),
        Table::TmdbExtids => (11, 't', 's'),
        Table::TmdbMoviedetails => (17, 't', 's'),
        Table::TmdbPrincipalTopn => (19, 't', 'n'),
        Table::Subtitles => (9, 's', 's'),
        Table::Opensubtitles => (13, 'o', 's'),
        Table::Misc => (4, 'm', 'c'),
        Table::MbSearch => (9, 'm', 'h'),
        Table::MbReleaseGroup => (16, 'm', 'p'),
        Table::MbArtist => (9, 'm', 't'),
        Table::MbTracklist => (12, 'm', 't'),
        Table::IaItem => (7, 'i', 'm'),
        Table::YtChannel => (10, 'y', 'l'),
        Table::YtSearch => (9, 'y', 'h'),
        Table::JamendoTrack => (13, 'j', 'k'),
        Table::JamendoQuota => (13, 'j', 'a'),
    }
}

proof fn lemma_name(table: Table)
    ensures
        table.spec_name().len() == ends(table).0,
        table.spec_name().len() > 0,
        table.spec_name()[0] == ends(table).1,
        table.spec_name().last() == ends(table).2,
{
    match table {
        Table::Midhash => {
            reveal_strlit("midhash");
        },
        Table::Blobs => {
            reveal_strlit("blobs");
        },
        Table::CoverCid => {
            reveal_strlit("cover_cid");
        },
        Table::Bibrec => {
            reveal_strlit("bibrec");
        },
        Table::PreviewCid => {
            reveal_strlit("preview_cid");
        },
        Table::Fullhash => {
            reveal_strlit("fullhash");
        },
        Table::Filelist => {
            reveal_strlit("filelist");
        },
        Table::TmdbSearch => {
            reveal_strlit("tmdb_search");
        },
        Table::TmdbTvdetails => {
            reveal_strlit("tmdb_tvdetails");
        },
        Table::TmdbExtids => {
            reveal_strlit("tmdb_extids");
        },
        Table::TmdbMoviedetails => {
            reveal_strlit("tmdb_moviedetails");
        },
        Table::TmdbPrincipalTopn => {
            reveal_strlit("tmdb_principal_topn");
        },
        Table::Subtitles => {
            reveal_strlit("subtitles");
        },
        Table::Opensubtitles => {
            reveal_strlit("opensubtitles");
        },
        Table::Misc => {
            reveal_strlit("misc");
        },
        Table::MbSearch => {
            reveal_strlit("mb_search");
        },
        Table::MbReleaseGroup => {
            reveal_strlit("mb_release_group");
        },
        Table::MbArtist => {
            reveal_strlit("mb_artist");
        },
        Table::MbTracklist => {
            reveal_strlit("mb_tracklist");
        },
        Table::IaItem => {
            reveal_strlit("ia_item");
        },
        Table::YtChannel => {
            reveal_strlit("yt_channel");
        },
        Table::YtSearch => {
            reveal_strlit("yt_search");
        },
        Table::JamendoTrack => {
            reveal_strlit("jamendo_track");
        },
        Table::JamendoQuota => {
            reveal_strlit("jamendo_quota");
        },
    }
}

/// No two tables are stored under one name.
pub proof fn law_names_are_distinct(table: Table, other: Table)
    ensures
        table.spec_name() == other.spec_name() ==> table == other,
{
    lemma_name(table);
    lemma_name(other);
}

} // verus!
