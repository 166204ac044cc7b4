//! Episode bookkeeping for series: next-episode lookup and the validation
//! of user-submitted file mappings.

use vstd::prelude::*;
use crate::media::{SeasonEntry, SeriesContents, season_wf, series_wf};
use core::marker::PhantomData;

verus! {

/// A season/episode pair, ordered lexicographically.
#[derive(Debug, Clone, Copy, PartialEq, Eq, Structural, Hash)]
pub struct EpisodeIdentifier {
    pub season_no: u32,
    pub episode_no: u32,
}

/// Strict lexicographic order on (season, episode).
pub open spec fn episode_lt(a: EpisodeIdentifier, b: EpisodeIdentifier) -> bool {
    a.season_no < b.season_no || (a.season_no == b.season_no && a.episode_no < b.episode_no)
}

/// Lexicographic order on (season, episode).
pub open spec fn episode_le(a: EpisodeIdentifier, b: EpisodeIdentifier) -> bool {
    episode_lt(a, b) || a == b
}

/// The series holds an episode with exactly this season and episode number.
pub open spec fn series_has_episode(series: SeriesContents, e: EpisodeIdentifier) -> bool {
    exists|i: int, j: int|
        {
            &&& 0 <= i < series.seasons@.len()
            &&& 0 <= j < (#[trigger] series.seasons@[i]).episodes@.len()
            &&& series.seasons@[i].number == e.season_no
            &&& (#[trigger] series.seasons@[i].episodes@[j]).number == e.episode_no
        }
}

/// The series holds a season with this number.
pub open spec fn series_has_season(series: SeriesContents, n: u32) -> bool {
    exists|i: int| 0 <= i < series.seasons@.len() && (#[trigger] series.seasons@[i]).number == n
}

/// Every listed season holds at least one episode.
pub open spec fn seasons_nonempty(series: SeriesContents) -> bool {
    forall|i: int|
        0 <= i < series.seasons@.len() ==> (#[trigger] series.seasons@[i]).episodes@.len() > 0
}

impl EpisodeIdentifier {
    /// The lexicographically least episode of the series: the first episode
    /// of the first season.
    pub fn find_earliest_available_episode(series: &SeriesContents) -> (r: EpisodeIdentifier)
        requires
            series_wf(*series),
            seasons_nonempty(*series),
            series.seasons@.len() > 0,
        ensures
            series_has_episode(*series, r),
            forall|e: EpisodeIdentifier| series_has_episode(*series, e) ==> episode_le(r, e),
    {
        let season = &series.seasons[0];
        let r = EpisodeIdentifier {
            season_no: season.number,
            episode_no: season.episodes[0].number,
        };
        proof {
            assert(series_has_episode(*series, r)) by {
                assert(series.seasons@[0].episodes@[0].number == r.episode_no);
            }
            assert forall|e: EpisodeIdentifier| series_has_episode(*series, e) implies episode_le(
                r,
                e,
            ) by {
                let (i, j): (int, int) = choose|i: int, j: int|
                    {
                        &&& 0 <= i < series.seasons@.len()
                        &&& 0 <= j < (#[trigger] series.seasons@[i]).episodes@.len()
                        &&& series.seasons@[i].number == e.season_no
                        &&& (#[trigger] series.seasons@[i].episodes@[j]).number == e.episode_no
                    };
                if i == 0 {
                    assert(season_wf(series.seasons@[0]));
                    if j != 0 {
                        assert(series.seasons@[0].episodes@[0].number
                            < series.seasons@[0].episodes@[j].number);
                    }
                } else {
                    assert(series.seasons@[0].number < series.seasons@[i].number);
                }
            }
        }
        r
    }

    /// The next episode after this one: the smallest episode number above
    /// the current one in the current season, or else the first episode of
    /// the smallest season number above the current one, or else nothing.
    /// Equivalently: the lexicographic successor among the series' episodes.
    pub fn find_next_episode(&self, series: &SeriesContents) -> (r: Option<EpisodeIdentifier>)
        requires
            series_wf(*series),
            seasons_nonempty(*series),
            series_has_season(*series, self.season_no),
        ensures
            r matches Some(e) ==> series_has_episode(*series, e) && episode_lt(*self, e) && (forall|
                e2: EpisodeIdentifier,
            |
                series_has_episode(*series, e2) && episode_lt(*self, e2) ==> episode_le(e, e2)),
            r is None ==> forall|e2: EpisodeIdentifier|
                series_has_episode(*series, e2) ==> !episode_lt(*self, e2),
    {
        // Locate the current season.
        let n = series.seasons.len();
        let mut si: usize = 0;
        while si < n && series.seasons[si].number != self.season_no
            invariant
                n == series.seasons@.len(),
                si <= n,
                forall|m: int|
                    0 <= m < si ==> (#[trigger] series.seasons@[m]).number != self.season_no,
            decreases n - si,
        {
            si = si + 1;
        }
        proof {
            if si == n {
                assert(!series_has_season(*series, self.season_no));
            }
        }
        let season = &series.seasons[si];
        // 1. The next episode within the current season, if any.
        let ne = season.episodes.len();
        let mut ej: usize = 0;
        while ej < ne && season.episodes[ej].number <= self.episode_no
            invariant
                ne == season.episodes@.len(),
                ej <= ne,
                forall|m: int|
                    0 <= m < ej ==> (#[trigger] season.episodes@[m]).number <= self.episode_no,
            decreases ne - ej,
        {
            ej = ej + 1;
        }
        if ej < ne {
            let r = EpisodeIdentifier {
                season_no: self.season_no,
                episode_no: season.episodes[ej].number,
            };
            proof {
                lemma_next_in_season(*series, *self, si as int, ej as int);
            }
            return Some(r);
        }
        // 2. The first season after the current one, if any.
        let mut ti: usize = 0;
        while ti < n && series.seasons[ti].number <= self.season_no
            invariant
                n == series.seasons@.len(),
                ti <= n,
                forall|m: int|
                    0 <= m < ti ==> (#[trigger] series.seasons@[m]).number <= self.season_no,
            decreases n - ti,
        {
            ti = ti + 1;
        }
        if ti < n {
            let next_season = &series.seasons[ti];
            let r = EpisodeIdentifier {
                season_no: next_season.number,
                episode_no: next_season.episodes[0].number,
            };
            proof {
                lemma_next_in_later_season(*series, *self, si as int, ti as int);
            }
            return Some(r);
        }
        proof {
            assert forall|e2: EpisodeIdentifier|
                series_has_episode(*series, e2) implies !episode_lt(*self, e2) by {
                let (i, j): (int, int) = episode_witness(*series, e2);
                assert(series.seasons@[i].number <= self.season_no);
                if series.seasons@[i].number == self.season_no {
                    assert(i == si as int) by {
                        if i < si as int {
                            assert(series.seasons@[i].number != self.season_no);
                        } else if i > si as int {
                            assert(series.seasons@[si as int].number < series.seasons@[i].number);
                        }
                    }
                    assert(series.seasons@[i].episodes@[j].number <= self.episode_no);
                }
            }
        }
        None
    }
}

/// The indices at which the series holds episode `e`.
pub(crate) open spec fn episode_witness(series: SeriesContents, e: EpisodeIdentifier) -> (int, int) {
    choose|i: int, j: int|
        {
            &&& 0 <= i < series.seasons@.len()
            &&& 0 <= j < (#[trigger] series.seasons@[i]).episodes@.len()
            &&& series.seasons@[i].number == e.season_no
            &&& (#[trigger] series.seasons@[i].episodes@[j]).number == e.episode_no
        }
}

proof fn lemma_season_index_unique(series: SeriesContents, i: int, i2: int)
    requires
        series_wf(series),
        0 <= i < series.seasons@.len(),
        0 <= i2 < series.seasons@.len(),
        series.seasons@[i].number == series.seasons@[i2].number,
    ensures
        i == i2,
{
    if i < i2 {
        assert(series.seasons@[i].number < series.seasons@[i2].number);
    }
    if i2 < i {
        assert(series.seasons@[i2].number < series.seasons@[i].number);
    }
}

proof fn lemma_next_in_season(series: SeriesContents, cur: EpisodeIdentifier, si: int, ej: int)
    requires
        series_wf(series),
        0 <= si < series.seasons@.len(),
        series.seasons@[si].number == cur.season_no,
        0 <= ej < series.seasons@[si].episodes@.len(),
        series.seasons@[si].episodes@[ej].number > cur.episode_no,
        forall|m: int|
            0 <= m < ej ==> (#[trigger] series.seasons@[si].episodes@[m]).number <= cur.episode_no,
    ensures
        ({
            let e = EpisodeIdentifier {
                season_no: cur.season_no,
                episode_no: series.seasons@[si].episodes@[ej].number,
            };
            &&& series_has_episode(series, e)
            &&& episode_lt(cur, e)
            &&& forall|e2: EpisodeIdentifier|
                series_has_episode(series, e2) && episode_lt(cur, e2) ==> episode_le(e, e2)
        }),
{
    let e = EpisodeIdentifier {
        season_no: cur.season_no,
        episode_no: series.seasons@[si].episodes@[ej].number,
    };
    assert(series_has_episode(series, e)) by {
        assert(series.seasons@[si].episodes@[ej].number == e.episode_no);
    }
    assert forall|e2: EpisodeIdentifier|
        series_has_episode(series, e2) && episode_lt(cur, e2) implies episode_le(e, e2) by {
        let (i, j): (int, int) = episode_witness(series, e2);
        if e2.season_no == cur.season_no {
            lemma_season_index_unique(series, i, si);
            // e2 lives in the same season at index j; it is above cur, so
            // it cannot sit before `ej` in the sorted episode list.
            assert(season_wf(series.seasons@[si]));
            if j < ej {
                assert(series.seasons@[si].episodes@[j].number <= cur.episode_no);
            } else if j == ej {
                assert(e2.episode_no == e.episode_no);
            } else {
                assert(series.seasons@[si].episodes@[ej].number
                    < series.seasons@[si].episodes@[j].number);
            }
        } else {
            assert(e2.season_no > cur.season_no);
        }
    }
}

proof fn lemma_next_in_later_season(series: SeriesContents, cur: EpisodeIdentifier, si: int, ti: int)
    requires
        series_wf(series),
        seasons_nonempty(series),
        0 <= si < series.seasons@.len(),
        series.seasons@[si].number == cur.season_no,
        forall|m: int|
            0 <= m < series.seasons@[si].episodes@.len() ==> (#[trigger] series.seasons@[si].episodes@[m]).number
                <= cur.episode_no,
        0 <= ti < series.seasons@.len(),
        series.seasons@[ti].number > cur.season_no,
        forall|m: int| 0 <= m < ti ==> (#[trigger] series.seasons@[m]).number <= cur.season_no,
    ensures
        ({
            let e = EpisodeIdentifier {
                season_no: series.seasons@[ti].number,
                episode_no: series.seasons@[ti].episodes@[0].number,
            };
            &&& series_has_episode(series, e)
            &&& episode_lt(cur, e)
            &&& forall|e2: EpisodeIdentifier|
                series_has_episode(series, e2) && episode_lt(cur, e2) ==> episode_le(e, e2)
        }),
{
    let e = EpisodeIdentifier {
        season_no: series.seasons@[ti].number,
        episode_no: series.seasons@[ti].episodes@[0].number,
    };
    assert(series_has_episode(series, e)) by {
        assert(series.seasons@[ti].episodes@[0].number == e.episode_no);
    }
    assert forall|e2: EpisodeIdentifier|
        series_has_episode(series, e2) && episode_lt(cur, e2) implies episode_le(e, e2) by {
        let (i, j): (int, int) = episode_witness(series, e2);
        if e2.season_no == cur.season_no {
            // No episode above cur exists in the current season.
            lemma_season_index_unique(series, i, si);
            assert(series.seasons@[si].episodes@[j].number <= cur.episode_no);
        } else {
            assert(e2.season_no > cur.season_no);
            // e2's season sits at or after ti in the sorted season list.
            if i < ti {
                assert(series.seasons@[i].number <= cur.season_no);
            } else if i == ti {
                assert(season_wf(series.seasons@[ti]));
                if j > 0 {
                    assert(series.seasons@[ti].episodes@[0].number
                        < series.seasons@[ti].episodes@[j].number);
                }
            } else {
                assert(series.seasons@[ti].number < series.seasons@[i].number);
            }
        }
    }
}

// ---------------------------------------------------------------------------
// File-mapping forms.
// ---------------------------------------------------------------------------

/// Marker for a form whose mapping has passed validation.
#[derive(Debug, Clone, PartialEq, Eq)]
pub struct Valid {}

/// Marker for a form whose mapping has not been checked yet.
#[derive(Debug, Clone, PartialEq, Eq)]
pub struct NeedsValidation {}

/// One row of a file mapping: a path from the torrent's file list and the
/// episode slot it should land in.
#[derive(Debug, Clone, PartialEq, Eq)]
pub struct FileMappingEntry {
    pub path: String,
    pub episode: EpisodeIdentifier,
}

/// Path -> episode slot. Paths are unique, as in a map.
#[derive(Debug, Clone, PartialEq, Eq)]
pub struct SeriesFileMapping {
    pub entries: Vec<FileMappingEntry>,
}

/// A submitted file mapping for a series torrent. The type parameter
/// records whether the mapping has been validated; only a `Valid` form is
/// ever acted on.
#[derive(Debug, PartialEq, Eq)]
pub struct EditSeriesFileMappingForm<T> {
    pub id: String,
    pub file_mapping: SeriesFileMapping,
    pub phantom: PhantomData<T>,
}

/// `path` appears among the allowed file names.
pub open spec fn path_allowed(allowed: Seq<String>, path: Seq<char>) -> bool {
    exists|m: int| 0 <= m < allowed.len() && (#[trigger] allowed[m])@ == path
}

/// What validation accepts: every path is drawn from the allowed list,
/// no path repeats, and no episode slot repeats.
pub open spec fn mapping_ok(mapping: SeriesFileMapping, allowed: Seq<String>) -> bool {
    &&& forall|k: int|
        0 <= k < mapping.entries@.len() ==> path_allowed(
            allowed,
            (#[trigger] mapping.entries@[k]).path@,
        )
    &&& forall|k: int, l: int|
        0 <= k < l < mapping.entries@.len() ==> (#[trigger] mapping.entries@[k]).path@ != (
        #[trigger] mapping.entries@[l]).path@
    &&& forall|k: int, l: int|
        0 <= k < l < mapping.entries@.len() ==> (#[trigger] mapping.entries@[k]).episode != (
        #[trigger] mapping.entries@[l]).episode
}

impl EditSeriesFileMappingForm<NeedsValidation> {
    /// Checks the mapping against the torrent's real file list: every key
    /// must name a listed file, and no two rows may share a path or an
    /// episode slot. Accepted mappings come back unchanged as a `Valid`
    /// form; anything else is rejected in total.
    pub fn validate(self, allowed_files: &Vec<String>) -> (r: Option<
        EditSeriesFileMappingForm<Valid>,
    >)
        ensures
            r is Some <==> mapping_ok(self.file_mapping, allowed_files@),
            r matches Some(v) ==> v.id == self.id && v.file_mapping == self.file_mapping,
    {
        let n = self.file_mapping.entries.len();
        let mut k: usize = 0;
        while k < n
            invariant
                n == self.file_mapping.entries@.len(),
                k <= n,
                forall|m: int|
                    0 <= m < k ==> path_allowed(
                        allowed_files@,
                        (#[trigger] self.file_mapping.entries@[m]).path@,
                    ),
            decreases n - k,
        {
            let mut found = false;
            let mut m: usize = 0;
            while m < allowed_files.len() && !found
                invariant
                    k < n == self.file_mapping.entries@.len(),
                    m <= allowed_files@.len(),
                    found ==> path_allowed(
                        allowed_files@,
                        self.file_mapping.entries@[k as int].path@,
                    ),
                    !found ==> forall|p: int|
                        0 <= p < m ==> (#[trigger] allowed_files@[p])@
                            != self.file_mapping.entries@[k as int].path@,
                decreases allowed_files@.len() - m,
            {
                if crate::text::str_eq(
                    self.file_mapping.entries[k].path.as_str(),
                    allowed_files[m].as_str(),
                ) {
                    found = true;
                }
                m = m + 1;
            }
            if !found {
                proof {
                    assert(!path_allowed(
                        allowed_files@,
                        self.file_mapping.entries@[k as int].path@,
                    ));
                }
                return None;
            }
            k = k + 1;
        }
        // Pairwise distinctness of paths and of episode slots.
        let mut a: usize = 0;
        while a < n
            invariant
                n == self.file_mapping.entries@.len(),
                a <= n,
                forall|x: int, y: int|
                    0 <= x < y < n && x < a ==> (#[trigger] self.file_mapping.entries@[x]).path@ != (
                    #[trigger] self.file_mapping.entries@[y]).path@
                        && self.file_mapping.entries@[x].episode
                        != self.file_mapping.entries@[y].episode,
            decreases n - a,
        {
            let mut b: usize = a + 1;
            while b < n
                invariant
                    a < b || b == a + 1,
                    a < n == self.file_mapping.entries@.len(),
                    a + 1 <= b <= n,
                    forall|y: int|
                        a < y < b ==> (#[trigger] self.file_mapping.entries@[y]).path@
                            != self.file_mapping.entries@[a as int].path@
                            && self.file_mapping.entries@[y].episode
                            != self.file_mapping.entries@[a as int].episode,
                decreases n - b,
            {
                if crate::text::str_eq(
                    self.file_mapping.entries[a].path.as_str(),
                    self.file_mapping.entries[b].path.as_str(),
                ) {
                    return None;
                }
                let ea = self.file_mapping.entries[a].episode;
                let eb = self.file_mapping.entries[b].episode;
                if ea == eb {
                    return None;
                }
                b = b + 1;
            }
            a = a + 1;
        }
        Some(
            EditSeriesFileMappingForm {
                id: self.id,
                file_mapping: self.file_mapping,
                phantom: PhantomData,
            },
        )
    }
}

} // verus!
