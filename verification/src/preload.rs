//! Cache warming: discovering tiles on disk and priming the cache
//! against geographic bounding boxes.
//!
//! Directory listing and the loads themselves are the caller's: the
//! caller hands the raw directory entries to [`scan_tile_files`],
//! plans the warm-up with [`plan_preload`], installs the planned tiles
//! through [`crate::service::SrtmService::install_tile`], and folds
//! the per-tile results into a [`PreloadStats`] with
//! [`preload_stats`].

use vstd::prelude::*;
use crate::coord::TileKey;
use crate::filename::{
    filename_to_lat_lon, spec_parse_tile_name_i32, spec_tile_filename, tile_key_to_filename,
};
use crate::service::SrtmService;

verus! {

/// A geographic rectangle in micro-degrees, used to filter which
/// tiles a preload should warm.
#[derive(Clone, Copy, PartialEq, Eq, Structural, Debug)]
pub struct BoundingBox {
    /// Southern edge, micro-degrees of latitude.
    pub min_lat_micro: i64,
    /// Western edge, micro-degrees of longitude.
    pub min_lon_micro: i64,
    /// Northern edge, micro-degrees of latitude.
    pub max_lat_micro: i64,
    /// Eastern edge, micro-degrees of longitude.
    pub max_lon_micro: i64,
}

/// Counters reported by a preload run.
#[derive(Clone, Copy, PartialEq, Eq, Structural, Debug, Default)]
pub struct PreloadStats {
    /// Tiles that matched the bounding-box filter.
    pub matched: u64,
    /// Tiles newly loaded into the cache.
    pub loaded: u64,
    /// Matched tiles that were already resident.
    pub already_cached: u64,
    /// Matched tiles whose load failed.
    pub failed: u64,
    /// Wall time of the run, in milliseconds.
    pub elapsed_ms: u64,
}

/// Half-open overlap of a box with the tile cell
/// `[lat, lat+1) x [lon, lon+1)`: every boundary is exclusive, so a
/// box that only touches a tile's edge does not match it.
pub open spec fn spec_overlaps_tile(b: BoundingBox, k: TileKey) -> bool {
    &&& b.min_lat_micro < (k.lat + 1) * 1_000_000
    &&& b.max_lat_micro > k.lat * 1_000_000
    &&& b.min_lon_micro < (k.lon + 1) * 1_000_000
    &&& b.max_lon_micro > k.lon * 1_000_000
}

/// Whether the box overlaps the tile cell of `k`, boundaries
/// exclusive: a box ending exactly at a tile's edge does not match
/// that tile.
pub fn overlaps_tile(b: BoundingBox, k: TileKey) -> (r: bool)
    requires
        -1000 <= k.lat <= 1000,
        -1000 <= k.lon <= 1000,
    ensures
        r == spec_overlaps_tile(b, k),
{
    let lat: i64 = k.lat as i64;
    let lon: i64 = k.lon as i64;
    b.min_lat_micro < (lat + 1) * 1_000_000 && b.max_lat_micro > lat * 1_000_000
        && b.min_lon_micro < (lon + 1) * 1_000_000 && b.max_lon_micro > lon * 1_000_000
}

/// Whether the box overlaps the cell of `k` for at least one box of
/// `bounds`; `None` means no filter, which matches everything.
pub open spec fn spec_matches_bounds(bounds: Option<Seq<BoundingBox>>, k: TileKey) -> bool {
    bounds is None || exists|i: int|
        0 <= i < bounds->0.len() && spec_overlaps_tile(#[trigger] bounds->0[i], k)
}

/// The spec-level view of an optional bounding-box list.
pub open spec fn spec_bounds_view(bounds: Option<&Vec<BoundingBox>>) -> Option<Seq<BoundingBox>> {
    match bounds {
        Some(bs) => Some(bs@),
        None => None,
    }
}

/// Exec form of [`spec_matches_bounds`].
pub fn matches_bounds(bounds: Option<&Vec<BoundingBox>>, k: TileKey) -> (r: bool)
    requires
        -1000 <= k.lat <= 1000,
        -1000 <= k.lon <= 1000,
    ensures
        r == spec_matches_bounds(spec_bounds_view(bounds), k),
{
    match bounds {
        None => true,
        Some(bs) => {
            let n: usize = bs.len();
            let mut i: usize = 0;
            while i < n
                invariant
                    i <= n,
                    n == bs@.len(),
                    spec_bounds_view(bounds) == Some(bs@),
                    -1000 <= k.lat <= 1000,
                    -1000 <= k.lon <= 1000,
                    forall|j: int| 0 <= j < i ==> !spec_overlaps_tile(#[trigger] bs@[j], k),
                decreases n - i,
            {
                if overlaps_tile(bs[i], k) {
                    proof {
                        let ghost ov = spec_bounds_view(bounds);
                        assert(ov->0 == bs@);
                        assert(spec_overlaps_tile(ov->0[i as int], k));
                    }
                    return true;
                }
                i = i + 1;
            }
            false
        },
    }
}

/// `s` with a trailing `.zip` removed, if present.
pub open spec fn spec_strip_zip(s: Seq<char>) -> Seq<char> {
    if s.len() >= 4 && s[s.len() - 4] == '.' && s[s.len() - 3] == 'z' && s[s.len() - 2] == 'i'
        && s[s.len() - 1] == 'p' {
        s.subrange(0, s.len() - 4)
    } else {
        s
    }
}

/// The tile key a directory entry stands for: strip a `.zip` suffix
/// (a compressed sibling names the same tile), then parse the tile
/// filename.
pub open spec fn spec_entry_key(s: Seq<char>) -> Option<TileKey> {
    match spec_parse_tile_name_i32(spec_strip_zip(s)) {
        Some(p) => Some(TileKey { lat: p.0, lon: p.1 }),
        None => None,
    }
}

/// Strict order on tile keys: by latitude, then longitude.
pub open spec fn spec_key_lt(a: TileKey, b: TileKey) -> bool {
    a.lat < b.lat || (a.lat == b.lat && a.lon < b.lon)
}

/// Exec form of [`spec_key_lt`].
fn key_lt(a: TileKey, b: TileKey) -> (r: bool)
    ensures
        r == spec_key_lt(a, b),
{
    a.lat < b.lat || (a.lat == b.lat && a.lon < b.lon)
}

/// The tile key a directory entry stands for, or `None` when the name
/// is not a tile filename (with or without a `.zip` suffix).
fn entry_key(name: &str) -> (r: Option<TileKey>)
    ensures
        r == spec_entry_key(name@),
        r matches Some(k) ==> -99 <= k.lat <= 99 && -999 <= k.lon <= 999,
{
    let n: usize = name.unicode_len();
    let stripped: &str = if n >= 4 && name.get_char(n - 4) == '.' && name.get_char(n - 3) == 'z'
        && name.get_char(n - 2) == 'i' && name.get_char(n - 1) == 'p' {
        let s = name.substring_char(0, n - 4);
        proof {
            assert(s@ =~= spec_strip_zip(name@));
        }
        s
    } else {
        proof {
            assert(name@ =~= spec_strip_zip(name@));
        }
        name
    };
    match filename_to_lat_lon(stripped) {
        Some((lat, lon)) => Some(TileKey { lat, lon }),
        None => None,
    }
}

/// Membership in a sequence with one element inserted.
proof fn lemma_insert_contains(s: Seq<TileKey>, i: int, x: TileKey, y: TileKey)
    requires
        0 <= i <= s.len(),
    ensures
        s.insert(i, x).contains(y) <==> (s.contains(y) || x == y),
{
    let t = s.insert(i, x);
    assert(t[i] == x);
    if s.contains(y) {
        let j = choose|j: int| 0 <= j < s.len() && s[j] == y;
        if j < i {
            assert(t[j] == y);
        } else {
            assert(t[j + 1] == y);
        }
    }
    if t.contains(y) {
        let j = choose|j: int| 0 <= j < t.len() && t[j] == y;
        if j < i {
            assert(s[j] == y);
        } else if j > i {
            assert(s[j - 1] == y);
        }
    }
}

/// Whether one of the first `n` entries names the tile `k`.
pub open spec fn spec_some_entry_has_key(entries: Seq<String>, n: int, k: TileKey) -> bool {
    exists|j: int| 0 <= j < n && spec_entry_key((#[trigger] entries[j])@) == Some(k)
}

/// Insert `k` into a strictly sorted key list, keeping it sorted;
/// an already-present key is left alone.
fn insert_key_sorted(keys: &mut Vec<TileKey>, k: TileKey)
    requires
        forall|i: int, j: int|
            0 <= i < j < old(keys)@.len() ==> spec_key_lt(
                #[trigger] old(keys)@[i],
                #[trigger] old(keys)@[j],
            ),
        -99 <= k.lat <= 99,
        -999 <= k.lon <= 999,
        forall|i: int|
            0 <= i < old(keys)@.len() ==> -99 <= (#[trigger] old(keys)@[i]).lat <= 99 && -999 <= old(
                keys,
            )@[i].lon <= 999,
    ensures
        forall|i: int, j: int|
            0 <= i < j < final(keys)@.len() ==> spec_key_lt(
                #[trigger] final(keys)@[i],
                #[trigger] final(keys)@[j],
            ),
        forall|q: TileKey|
            final(keys)@.contains(q) <==> (old(keys)@.contains(q) || q == k),
        forall|i: int|
            0 <= i < final(keys)@.len() ==> -99 <= (#[trigger] final(keys)@[i]).lat <= 99 && -999
                <= final(keys)@[i].lon <= 999,
    {
    let n: usize = keys.len();
    let mut pos: usize = 0;
    while pos < n && key_lt(keys[pos], k)
        invariant
            pos <= n,
            n == keys@.len(),
            forall|i: int| 0 <= i < pos ==> spec_key_lt(#[trigger] keys@[i], k),
        decreases n - pos,
    {
        pos = pos + 1;
    }
    if pos < n && keys[pos] == k {
        proof {
            assert(keys@.contains(k));
        }
        return ;
    }
    let ghost s0 = keys@;
    proof {
        if pos < s0.len() {
            assert(!spec_key_lt(s0[pos as int], k));
            assert(s0[pos as int] != k);
            assert(spec_key_lt(k, s0[pos as int]));
        }
        lemma_insert_contains(s0, pos as int, k, k);
    }
    keys.insert(pos, k);
    proof {
        assert forall|q: TileKey| final(keys)@.contains(q) <==> (s0.contains(q) || q == k) by {
            lemma_insert_contains(s0, pos as int, k, q);
        }
        assert forall|i: int, j: int|
            0 <= i < j < final(keys)@.len() implies spec_key_lt(
            #[trigger] final(keys)@[i],
            #[trigger] final(keys)@[j],
        ) by {
            let t = final(keys)@;
            if j < pos {
            } else if i < pos && j == pos {
            } else if i < pos && j > pos {
                assert(t[i] == s0[i] && t[j] == s0[j - 1]);
            } else if i == pos {
                assert(t[j] == s0[j - 1]);
            } else {
                assert(t[i] == s0[i - 1] && t[j] == s0[j - 1]);
            }
        }
    }
}

/// Scan raw directory entries for tile files.  A `<name>.zip` sibling
/// collapses onto its canonical `<name>`; names that do not parse as
/// tile filenames are dropped.  The result lists each discovered
/// tile's canonical filename exactly once, sorted by tile key
/// (latitude, then longitude).
pub fn scan_tile_files(entries: &Vec<String>) -> (r: Vec<String>)
    ensures
        forall|i: int|
            0 <= i < r@.len() ==> spec_entry_key(#[trigger] r@[i]@) is Some,
        forall|i: int|
            0 <= i < r@.len() ==> (#[trigger] r@[i]@) == spec_tile_filename(
                spec_entry_key(r@[i]@)->0.lat as int,
                spec_entry_key(r@[i]@)->0.lon as int,
            ),
        forall|i: int, j: int|
            0 <= i < j < r@.len() ==> spec_key_lt(
                spec_entry_key(#[trigger] r@[i]@)->0,
                spec_entry_key(#[trigger] r@[j]@)->0,
            ),
        forall|k: TileKey|
            #![trigger spec_some_entry_has_key(entries@, entries@.len() as int, k)]
            #![trigger spec_some_entry_has_key(r@, r@.len() as int, k)]
            spec_some_entry_has_key(entries@, entries@.len() as int, k)
                <==> spec_some_entry_has_key(r@, r@.len() as int, k),
{
    let n: usize = entries.len();
    let mut keys: Vec<TileKey> = Vec::new();
    let mut i: usize = 0;
    while i < n
        invariant
            i <= n,
            n == entries@.len(),
            forall|a: int, b: int|
                0 <= a < b < keys@.len() ==> spec_key_lt(
                    #[trigger] keys@[a],
                    #[trigger] keys@[b],
                ),
            forall|a: int|
                0 <= a < keys@.len() ==> -99 <= (#[trigger] keys@[a]).lat <= 99 && -999
                    <= keys@[a].lon <= 999,
            forall|q: TileKey|
                keys@.contains(q) <==> spec_some_entry_has_key(entries@, i as int, q),
        decreases n - i,
    {
        match entry_key(entries[i].as_str()) {
            Some(k) => {
                insert_key_sorted(&mut keys, k);
            },
            None => {},
        }
        proof {
            assert forall|q: TileKey|
                keys@.contains(q) <==> spec_some_entry_has_key(entries@, i + 1 as int, q) by {}
        }
        i = i + 1;
    }

    let m: usize = keys.len();
    let mut out: Vec<String> = Vec::new();
    let mut j: usize = 0;
    while j < m
        invariant
            j <= m,
            m == keys@.len(),
            out@.len() == j,
            forall|a: int, b: int|
                0 <= a < b < keys@.len() ==> spec_key_lt(
                    #[trigger] keys@[a],
                    #[trigger] keys@[b],
                ),
            forall|a: int|
                0 <= a < keys@.len() ==> -99 <= (#[trigger] keys@[a]).lat <= 99 && -999
                    <= keys@[a].lon <= 999,
            forall|a: int|
                0 <= a < j ==> (#[trigger] out@[a]@) == spec_tile_filename(
                    keys@[a].lat as int,
                    keys@[a].lon as int,
                ),
            forall|a: int|
                0 <= a < j ==> spec_entry_key(#[trigger] out@[a]@) == Some(keys@[a]),
        decreases m - j,
    {
        let k = keys[j];
        let name = tile_key_to_filename(k);
        proof {
            crate::filename::lemma_canonical_name_parses(k);
        }
        out.push(name);
        j = j + 1;
    }
    proof {
        assert forall|k: TileKey|
            spec_some_entry_has_key(entries@, n as int, k) <==> spec_some_entry_has_key(
                out@,
                out@.len() as int,
                k,
            ) by {
            if spec_some_entry_has_key(entries@, n as int, k) {
                assert(keys@.contains(k));
                let a = choose|a: int| 0 <= a < keys@.len() && keys@[a] == k;
                assert(spec_entry_key(out@[a]@) == Some(k));
            }
            if spec_some_entry_has_key(out@, out@.len() as int, k) {
                let a = choose|a: int|
                    0 <= a < out@.len() && spec_entry_key((#[trigger] out@[a])@) == Some(k);
                assert(keys@.contains(keys@[a]));
            }
        }
    }
    out
}

/// Whether a preload over the first `n` of `files` must load tile
/// `k`: some entry names it, it matches the bounds, and it is not
/// resident.
pub open spec fn spec_preload_plans(
    files: Seq<String>,
    n: int,
    bounds: Option<Seq<BoundingBox>>,
    svc: SrtmService,
    k: TileKey,
) -> bool {
    &&& spec_some_entry_has_key(files, n, k)
    &&& spec_matches_bounds(bounds, k)
    &&& !svc.spec_has_tile(k)
}

/// The distinct tiles among the first `n` of `files` that match the
/// bounds and are already resident.
pub open spec fn spec_preload_cached_keys(
    files: Seq<String>,
    n: int,
    bounds: Option<Seq<BoundingBox>>,
    svc: SrtmService,
) -> Set<TileKey> {
    Set::new(
        |k: TileKey|
            spec_some_entry_has_key(files, n, k) && spec_matches_bounds(bounds, k)
                && svc.spec_has_tile(k),
    )
}

/// A planned preload: which tiles to load, and how the discovered
/// tiles counted against the filter and the cache.
pub struct PreloadPlan {
    /// Distinct keys of matched tiles that are not resident, to be
    /// loaded by the caller.
    pub to_load: Vec<TileKey>,
    /// Matched tiles, resident or not.
    pub matched: u64,
    /// Matched tiles that were already resident.
    pub already_cached: u64,
}

impl SrtmService {
    /// Plan a preload: parse each discovered filename, keep the tiles
    /// overlapping at least one bounding box (or all of them without
    /// a filter), and split them into already-resident tiles and
    /// tiles to load.  `matched` counts the distinct matched keys;
    /// `already_cached` the resident ones among them.
    pub fn plan_preload(&self, files: &Vec<String>, bounds: Option<&Vec<BoundingBox>>) -> (r:
        PreloadPlan)
        requires
            self.wf(),
        ensures
            r.to_load@.no_duplicates(),
            forall|q: TileKey|
                #[trigger] r.to_load@.contains(q) <==> spec_preload_plans(
                    files@,
                    files@.len() as int,
                    match bounds {
                        Some(bs) => Some(bs@),
                        None => None,
                    },
                    *self,
                    q,
                ),
            r.already_cached as int == spec_preload_cached_keys(
                files@,
                files@.len() as int,
                match bounds {
                    Some(bs) => Some(bs@),
                    None => None,
                },
                *self,
            ).len(),
            r.matched as int == r.already_cached + r.to_load@.len(),
    {
        let ghost specbounds: Option<Seq<BoundingBox>> = match bounds {
            Some(bs) => Some(bs@),
            None => None,
        };
        let n: usize = files.len();
        let mut to_load: Vec<TileKey> = Vec::new();
        let mut cached_seen: Vec<TileKey> = Vec::new();
        let mut i: usize = 0;
        while i < n
            invariant
                self.wf(),
                i <= n,
                n == files@.len(),
                specbounds == (match bounds {
                    Some(bs) => Some(bs@),
                    None => None,
                }),
                to_load@.no_duplicates(),
                cached_seen@.no_duplicates(),
                forall|q: TileKey|
                    #[trigger] to_load@.contains(q) <==> spec_preload_plans(
                        files@,
                        i as int,
                        specbounds,
                        *self,
                        q,
                    ),
                forall|q: TileKey|
                    #[trigger] cached_seen@.contains(q) <==> (spec_matches_bounds(specbounds, q)
                        && self.spec_has_tile(q) && spec_some_entry_has_key(files@, i as int, q)),
                to_load@.len() + cached_seen@.len() <= i,
            decreases n - i,
        {
            match entry_key(files[i].as_str()) {
                Some(k) => {
                    if matches_bounds(bounds, k) {
                        if self.has_tile(k) {
                            if !Self::key_list_has(&cached_seen, k) {
                                proof {
                                    crate::service::lemma_push_no_dup(cached_seen@, k);
                                }
                                let ghost s0 = cached_seen@;
                                cached_seen.push(k);
                                proof {
                                    assert forall|q: TileKey| #[trigger] s0.push(k).contains(q)
                                        <==> (s0.contains(q) || q == k) by {
                                        crate::service::lemma_push_contains(s0, k, q);
                                    }
                                }
                            }
                        } else {
                            if !Self::key_list_has(&to_load, k) {
                                proof {
                                    crate::service::lemma_push_no_dup(to_load@, k);
                                }
                                let ghost s0 = to_load@;
                                to_load.push(k);
                                proof {
                                    assert forall|q: TileKey| #[trigger] s0.push(k).contains(q)
                                        <==> (s0.contains(q) || q == k) by {
                                        crate::service::lemma_push_contains(s0, k, q);
                                    }
                                }
                            }
                        }
                    }
                },
                None => {},
            }
            proof {
                assert forall|q: TileKey|
                    #[trigger] to_load@.contains(q) <==> spec_preload_plans(
                        files@,
                        i + 1 as int,
                        specbounds,
                        *self,
                        q,
                    ) by {}
                assert forall|q: TileKey|
                    #[trigger] cached_seen@.contains(q) <==> (spec_matches_bounds(specbounds, q)
                        && self.spec_has_tile(q) && spec_some_entry_has_key(
                        files@,
                        i + 1 as int,
                        q,
                    )) by {}
            }
            i = i + 1;
        }
        proof {
            cached_seen@.unique_seq_to_set();
            assert(cached_seen@.to_set() =~= spec_preload_cached_keys(
                files@,
                n as int,
                specbounds,
                *self,
            ));
        }
        let loads: u64 = to_load.len() as u64;
        let cached: u64 = cached_seen.len() as u64;
        PreloadPlan { to_load, matched: loads + cached, already_cached: cached }
    }

    /// Whether the tile with key `k` is resident, without touching
    /// counters or recency.
    pub fn has_tile(&self, k: TileKey) -> (r: bool)
        ensures
            r == self.spec_has_tile(k),
    {
        let n: usize = self.entries.len();
        let mut i: usize = 0;
        while i < n
            invariant
                i <= n,
                n == self.entries@.len(),
                forall|j: int| 0 <= j < i ==> self.entries@[j].key != k,
            decreases n - i,
        {
            if self.entries[i].key == k {
                return true;
            }
            i = i + 1;
        }
        false
    }

    /// Whether `v` holds `k`.
    fn key_list_has(v: &Vec<TileKey>, k: TileKey) -> (r: bool)
        ensures
            r == v@.contains(k),
    {
        let n: usize = v.len();
        let mut i: usize = 0;
        while i < n
            invariant
                i <= n,
                n == v@.len(),
                forall|j: int| 0 <= j < i ==> v@[j] != k,
            decreases n - i,
        {
            if v[i] == k {
                return true;
            }
            i = i + 1;
        }
        false
    }
}

/// Number of `true` values among the first `n` results.
pub open spec fn spec_true_count(results: Seq<bool>, n: int) -> int
    decreases n,
{
    if n <= 0 {
        0
    } else {
        spec_true_count(results, n - 1) + if results[n - 1] {
            1int
        } else {
            0int
        }
    }
}

/// Fold a finished preload into its statistics: `results` holds one
/// success flag per planned load; successes count as `loaded`,
/// failures as `failed`.
pub fn preload_stats(plan: &PreloadPlan, results: &Vec<bool>, elapsed_ms: u64) -> (r: PreloadStats)
    requires
        results@.len() == plan.to_load@.len(),
        plan.matched as int == plan.already_cached + plan.to_load@.len(),
    ensures
        r.matched == plan.matched,
        r.already_cached == plan.already_cached,
        r.loaded as int == spec_true_count(results@, results@.len() as int),
        r.failed as int == results@.len() - spec_true_count(results@, results@.len() as int),
        r.elapsed_ms == elapsed_ms,
{
    let n: usize = results.len();
    let mut loaded: u64 = 0;
    let mut i: usize = 0;
    while i < n
        invariant
            i <= n,
            n == results@.len(),
            n <= u64::MAX,
            loaded as int == spec_true_count(results@, i as int),
            loaded <= i,
        decreases n - i,
    {
        if results[i] {
            loaded = loaded + 1;
        }
        i = i + 1;
    }
    PreloadStats {
        matched: plan.matched,
        loaded,
        already_cached: plan.already_cached,
        failed: (n as u64) - loaded,
        elapsed_ms,
    }
}

} // verus!
