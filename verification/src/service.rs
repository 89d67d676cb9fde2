//! The elevation service: a bounded, recency-evicting tile cache with
//! hit/miss statistics, plus the query protocol built on it.
//!
//! Loading a tile needs the filesystem, which this crate does not
//! touch.  Queries therefore run a small protocol: a query method
//! answers immediately from the cache (counting a hit), or counts a
//! miss and reports which tile is needed; the caller obtains that
//! tile's bytes however it can (disk, archive, network), installs them
//! with [`SrtmService::install_tile`], and completes the query with a
//! read method, which touches no statistics.  A tile that cannot be
//! obtained simply stays uninstalled, and the read methods answer
//! `Ok(None)` for it: a missing tile is a data-availability fact, not
//! an error.
//!
//! Eviction is least-recently-used: entries are kept in recency order,
//! a cache hit requeues its entry, and an insertion beyond capacity
//! drops the stalest entry.  Entries hold their tile directly, so an
//! evicted tile's buffer lives until its last user drops it.

use vstd::prelude::*;
use crate::coord::{Coord, TileKey, floor_deg, spec_valid_coord, to_tile_key, is_valid_srtm_coord};
use crate::error::SrtmError;
use crate::filename::{lat_lon_to_filename, filename_to_lat_lon, spec_parse_tile_name_i32};
use crate::tile::{SrtmTile, VOID_VALUE};

verus! {

/// Counters describing cache usage.  The hit rate is
/// `hit_count / (hit_count + miss_count)`, taken as zero when no
/// request has been made.
#[derive(Debug, Clone, Copy, PartialEq, Eq, Structural, Default)]
pub struct CacheStats {
    /// Number of tiles currently resident.
    pub entry_count: u64,
    /// Requests answered from the cache.
    pub hit_count: u64,
    /// Requests that required a tile load.
    pub miss_count: u64,
}

/// One resident tile, keyed by its southwest corner.
pub struct CacheEntry {
    /// The tile's key.
    pub key: TileKey,
    /// The loaded tile.
    pub tile: SrtmTile,
}

/// Whether some entry of `s` has key `k`.
pub open spec fn has_key_in(s: Seq<CacheEntry>, k: TileKey) -> bool {
    exists|i: int| 0 <= i < s.len() && s[i].key == k
}

/// The index of the entry with key `k` (meaningful when present and
/// keys are unique).
pub open spec fn index_of_key(s: Seq<CacheEntry>, k: TileKey) -> int {
    choose|i: int| 0 <= i < s.len() && s[i].key == k
}

/// The tile stored for key `k`.
pub open spec fn tile_in(s: Seq<CacheEntry>, k: TileKey) -> SrtmTile {
    s[index_of_key(s, k)].tile
}

/// No two entries share a key.
pub open spec fn unique_keys(s: Seq<CacheEntry>) -> bool {
    forall|i: int, j: int| 0 <= i < j < s.len() ==> s[i].key != s[j].key
}

/// Every entry holds a well-formed tile whose recorded southwest
/// corner is its key.
pub open spec fn entries_wf(s: Seq<CacheEntry>) -> bool {
    forall|i: int|
        0 <= i < s.len() ==> {
            &&& (#[trigger] s[i]).tile.wf()
            &&& s[i].tile.base_lat == s[i].key.lat
            &&& s[i].tile.base_lon == s[i].key.lon
        }
}

/// The tile key a coordinate resolves to: the floor of each component.
pub open spec fn spec_key_of(c: Coord) -> TileKey {
    TileKey {
        lat: floor_deg(c.lat_micro as int) as i32,
        lon: floor_deg(c.lon_micro as int) as i32,
    }
}

/// `x + k`, saturating at the counter's maximum.
pub open spec fn sat_add(x: u64, k: nat) -> u64 {
    if x + k <= u64::MAX {
        (x + k) as u64
    } else {
        u64::MAX
    }
}

/// The tri-state value of a nearest-neighbor lookup in `t`: `None`
/// for the void sentinel, else the sample.
pub open spec fn spec_value_nearest(t: SrtmTile, c: Coord) -> Option<i16> {
    if t.spec_nearest(c) == VOID_VALUE {
        None
    } else {
        Some(t.spec_nearest(c))
    }
}

/// The tri-state value of a floor-rounding lookup in `t`.
pub open spec fn spec_value_floor(t: SrtmTile, c: Coord) -> Option<i16> {
    if t.spec_floor_sample(c) == VOID_VALUE {
        None
    } else {
        Some(t.spec_floor_sample(c))
    }
}

/// What a query method reports: either the finished tri-state answer,
/// or the key of the tile that must be installed first.
pub enum QueryOutcome<T> {
    /// The answer: a value, or `None` for void data or an absent tile.
    Ready(Option<T>),
    /// The tile with this key is not resident; counted as a miss.
    NeedTile(TileKey),
}

/// Removing an entry keeps every other key and its tile.
proof fn lemma_remove_entry(s: Seq<CacheEntry>, i: int)
    requires
        unique_keys(s),
        0 <= i < s.len(),
    ensures
        unique_keys(s.remove(i)),
        !has_key_in(s.remove(i), s[i].key),
        forall|k: TileKey|
            k != s[i].key ==> (#[trigger] has_key_in(s.remove(i), k) <==> has_key_in(s, k)),
        forall|k: TileKey|
            k != s[i].key && has_key_in(s, k) ==> #[trigger] tile_in(s.remove(i), k) == tile_in(
                s,
                k,
            ),
{
    let r = s.remove(i);
    assert forall|k: TileKey| k != s[i].key implies (has_key_in(r, k) <==> has_key_in(s, k)) by {
        if has_key_in(s, k) {
            let j = index_of_key(s, k);
            if j < i {
                assert(r[j].key == k);
            } else {
                assert(r[j - 1].key == k);
            }
        }
        if has_key_in(r, k) {
            let j = choose|j: int| 0 <= j < r.len() && r[j].key == k;
            if j < i {
                assert(s[j].key == k);
            } else {
                assert(s[j + 1].key == k);
            }
        }
    }
    assert forall|k: TileKey| k != s[i].key && has_key_in(s, k) implies tile_in(r, k) == tile_in(
        s,
        k,
    ) by {
        let j = index_of_key(s, k);
        let j2 = index_of_key(r, k);
        assert(0 <= j2 < r.len() && r[j2].key == k);
        if j2 < i {
            assert(r[j2] == s[j2]);
        } else {
            assert(r[j2] == s[j2 + 1]);
        }
    }
    assert forall|k: TileKey| !(#[trigger] has_key_in(r, k) && k == s[i].key) by {
        if has_key_in(r, k) && k == s[i].key {
            let j = choose|j: int| 0 <= j < r.len() && r[j].key == k;
            if j < i {
                assert(s[j].key == s[i].key);
            } else {
                assert(s[j + 1].key == s[i].key);
            }
        }
    }
}

/// Appending an entry with a fresh key keeps every old key and its
/// tile, and stores the new entry's tile under its key.
proof fn lemma_push_entry(s: Seq<CacheEntry>, e: CacheEntry)
    requires
        unique_keys(s),
        !has_key_in(s, e.key),
    ensures
        unique_keys(s.push(e)),
        has_key_in(s.push(e), e.key),
        tile_in(s.push(e), e.key) == e.tile,
        forall|k: TileKey|
            k != e.key ==> (#[trigger] has_key_in(s.push(e), k) <==> has_key_in(s, k)),
        forall|k: TileKey|
            k != e.key && has_key_in(s, k) ==> #[trigger] tile_in(s.push(e), k) == tile_in(s, k),
{
    let p = s.push(e);
    assert(p[s.len() as int].key == e.key);
    assert forall|k: TileKey| k != e.key implies (has_key_in(p, k) <==> has_key_in(s, k)) by {
        if has_key_in(s, k) {
            let j = index_of_key(s, k);
            assert(p[j].key == k);
        }
        if has_key_in(p, k) {
            let j = choose|j: int| 0 <= j < p.len() && p[j].key == k;
            assert(j < s.len());
            assert(s[j].key == k);
        }
    }
    assert forall|k: TileKey| k != e.key && has_key_in(s, k) implies tile_in(p, k) == tile_in(
        s,
        k,
    ) by {
        let j2 = index_of_key(p, k);
        assert(0 <= j2 < p.len() && p[j2].key == k);
        assert(j2 < s.len());
        assert(s[j2] == p[j2]);
    }
    let je = index_of_key(p, e.key);
    assert(0 <= je < p.len() && p[je].key == e.key);
    if je < s.len() {
        assert(s[je].key == e.key);
    }
}

/// The elevation service: a bounded map from tile key to loaded tile,
/// in recency order, with hit/miss counters.
pub struct SrtmService {
    /// Directory that tile files are loaded from (kept for the caller
    /// driving the loads; the service itself never touches it).
    pub data_dir: String,
    /// Resident tiles, least recently used first.
    pub entries: Vec<CacheEntry>,
    /// Maximum number of resident tiles.
    pub capacity: u64,
    /// Requests answered from the cache.
    pub hit_count: u64,
    /// Requests that required a tile load.
    pub miss_count: u64,
}

impl SrtmService {
    /// The service invariant: unique keys, well-formed tiles whose
    /// base matches their key, and no more entries than the capacity.
    pub open spec fn wf(&self) -> bool {
        &&& unique_keys(self.entries@)
        &&& entries_wf(self.entries@)
        &&& self.entries@.len() <= self.capacity
    }

    /// Whether the tile with key `k` is resident.
    pub open spec fn spec_has_tile(&self, k: TileKey) -> bool {
        has_key_in(self.entries@, k)
    }

    /// The resident tile with key `k`.
    pub open spec fn spec_tile(&self, k: TileKey) -> SrtmTile {
        tile_in(self.entries@, k)
    }

    /// Both services hold exactly the same tiles (recency order and
    /// counters may differ).
    pub open spec fn spec_same_tiles(&self, other: &SrtmService) -> bool {
        &&& forall|k: TileKey|
            #![trigger self.spec_has_tile(k)]
            #![trigger other.spec_has_tile(k)]
            self.spec_has_tile(k) <==> other.spec_has_tile(k)
        &&& forall|k: TileKey|
            #![trigger self.spec_tile(k)]
            #![trigger other.spec_tile(k)]
            self.spec_has_tile(k) ==> self.spec_tile(k) == other.spec_tile(k)
    }

    /// Capacity and data directory are unchanged.
    pub open spec fn spec_same_config(&self, other: &SrtmService) -> bool {
        self.capacity == other.capacity && self.data_dir == other.data_dir
    }

    /// Create a service over `data_dir` keeping at most `cache_size`
    /// tiles resident.
    pub fn new(data_dir: String, cache_size: u64) -> (s: SrtmService)
        ensures
            s.wf(),
            s.capacity == cache_size,
            s.data_dir == data_dir,
            s.hit_count == 0,
            s.miss_count == 0,
            s.entries@.len() == 0,
    {
        SrtmService {
            data_dir,
            entries: Vec::new(),
            capacity: cache_size,
            hit_count: 0,
            miss_count: 0,
        }
    }

    /// The maximum number of resident tiles.
    pub fn cache_capacity(&self) -> (r: u64)
        ensures
            r == self.capacity,
    {
        self.capacity
    }

    /// The directory tile files are loaded from.
    pub fn data_dir(&self) -> (r: &String)
        ensures
            r@ == self.data_dir@,
    {
        &self.data_dir
    }

    /// Current counters: resident tiles, hits, misses.
    pub fn cache_stats(&self) -> (r: CacheStats)
        ensures
            r.entry_count == self.entries@.len(),
            r.hit_count == self.hit_count,
            r.miss_count == self.miss_count,
    {
        CacheStats {
            entry_count: self.entries.len() as u64,
            hit_count: self.hit_count,
            miss_count: self.miss_count,
        }
    }

    /// Drop every resident tile.  Counters are kept.
    pub fn clear_cache(&mut self)
        ensures
            final(self).wf(),
            final(self).entries@.len() == 0,
            forall|k: TileKey| !final(self).spec_has_tile(k),
            final(self).spec_same_config(old(self)),
            final(self).hit_count == old(self).hit_count,
            final(self).miss_count == old(self).miss_count,
    {
        self.entries.clear();
    }

    /// Drop the tile named by `filename` (path and extension are
    /// tolerated), if the name parses and the tile is resident;
    /// any other resident tile is kept.
    pub fn invalidate_tile(&mut self, filename: &str)
        requires
            old(self).wf(),
        ensures
            final(self).wf(),
            final(self).spec_same_config(old(self)),
            final(self).hit_count == old(self).hit_count,
            final(self).miss_count == old(self).miss_count,
            match spec_parse_tile_name_i32(filename@) {
                Some(p) => {
                    let victim = TileKey { lat: p.0, lon: p.1 };
                    &&& !final(self).spec_has_tile(victim)
                    &&& forall|k: TileKey| k != victim
                        ==> (#[trigger] old(self).spec_has_tile(k)
                            <==> final(self).spec_has_tile(k))
                    &&& forall|k: TileKey| k != victim && #[trigger] old(self).spec_has_tile(k)
                        ==> old(self).spec_tile(k) == final(self).spec_tile(k)
                },
                None => final(self).spec_same_tiles(old(self)),
            },
    {
        match filename_to_lat_lon(filename) {
            Some((lat, lon)) => {
                let victim = TileKey { lat, lon };
                match self.find_entry(victim) {
                    Some(i) => {
                        proof {
                            lemma_remove_entry(self.entries@, i as int);
                        }
                        let _ = self.entries.remove(i);
                    },
                    None => {},
                }
            },
            None => {},
        }
    }

    /// Index of the resident entry with key `k`, if any.
    fn find_entry(&self, k: TileKey) -> (r: Option<usize>)
        ensures
            r is Some <==> self.spec_has_tile(k),
            r matches Some(i) ==> i < self.entries@.len() && self.entries@[i as int].key == k,
    {
        let n: usize = self.entries.len();
        let mut i: usize = 0;
        while i < n
            invariant
                i <= n,
                n == self.entries@.len(),
                forall|j: int| 0 <= j < i ==> self.entries@[j].key != k,
            decreases n - i,
        {
            if self.entries[i].key == k {
                return Some(i);
            }
            i = i + 1;
        }
        None
    }

    /// Requeue entry `i` as most recently used.
    fn touch(&mut self, i: usize)
        requires
            old(self).wf(),
            i < old(self).entries@.len(),
        ensures
            final(self).wf(),
            final(self).spec_same_tiles(old(self)),
            final(self).spec_same_config(old(self)),
            final(self).hit_count == old(self).hit_count,
            final(self).miss_count == old(self).miss_count,
            final(self).entries@.len() == old(self).entries@.len(),
    {
        let ghost s0 = self.entries@;
        proof {
            lemma_remove_entry(s0, i as int);
        }
        let e = self.entries.remove(i);
        proof {
            lemma_push_entry(s0.remove(i as int), e);
        }
        self.entries.push(e);

    }

    /// Saturating counter bump.
    fn bump(x: u64) -> (r: u64)
        ensures
            r == sat_add(x, 1),
    {
        if x < u64::MAX {
            x + 1
        } else {
            x
        }
    }

    /// Install the raw bytes of the tile with key `key`, read from
    /// disk or acquired elsewhere by the caller.  Detects the format
    /// from the byte count, inserts the tile as most recently used,
    /// and, when the cache is full, evicts the least recently used
    /// entry.  Counters are untouched: the miss was already counted by
    /// the query that requested this tile.
    pub fn install_tile(&mut self, key: TileKey, bytes: Vec<u8>) -> (r: Result<(), SrtmError>)
        requires
            old(self).wf(),
        ensures
            final(self).wf(),
            final(self).spec_same_config(old(self)),
            final(self).hit_count == old(self).hit_count,
            final(self).miss_count == old(self).miss_count,
            r is Ok <==> (bytes@.len() == 25_934_402 || bytes@.len() == 2_884_802),
            r matches Err(e) ==> e matches SrtmError::InvalidFileSize { size } && size
                == bytes@.len() && final(self).spec_same_tiles(old(self)),
            r is Ok && old(self).capacity == 0 ==> final(self).spec_same_tiles(old(self)),
            r is Ok && old(self).capacity > 0 ==> {
                &&& final(self).spec_has_tile(key)
                &&& final(self).spec_tile(key).spec_data() == bytes@
                &&& final(self).spec_tile(key).spec_samples() == (if bytes@.len() == 25_934_402 {
                    3601int
                } else {
                    1201int
                })
                &&& final(self).spec_tile(key).base_lat == key.lat
                &&& final(self).spec_tile(key).base_lon == key.lon
            },
            r is Ok && old(self).capacity > 0 ==> {
                let victim = if old(self).spec_has_tile(key) {
                    key
                } else if old(self).entries@.len() >= old(self).capacity {
                    old(self).entries@[0].key
                } else {
                    key
                };
                &&& forall|k: TileKey|
                    k != key && k != victim ==> (#[trigger] old(self).spec_has_tile(k) <==>
                    final(self).spec_has_tile(k))
                &&& forall|k: TileKey|
                    k != key && k != victim && #[trigger] old(self).spec_has_tile(k)
                        ==> old(self).spec_tile(k) == final(self).spec_tile(k)
            },
    {
        let tile = match SrtmTile::from_bytes(bytes, key.lat, key.lon) {
            Ok(t) => t,
            Err(e) => {
                return Err(e);
            },
        };
        if self.capacity == 0 {
            return Ok(());
        }
        // Replace an existing entry for this key outright.
        match self.find_entry(key) {
            Some(i) => {
                proof {
                    lemma_remove_entry(self.entries@, i as int);
                }
                let _ = self.entries.remove(i);
            },
            None => {},
        }
        // Evict the least recently used entry if the cache is full.
        if self.entries.len() as u64 >= self.capacity {
            proof {
                lemma_remove_entry(self.entries@, 0int);
            }
            let _ = self.entries.remove(0);
        }
        proof {
            lemma_push_entry(self.entries@, CacheEntry { key, tile });
        }
        self.entries.push(CacheEntry { key, tile });
        proof {
            let victim = if old(self).spec_has_tile(key) {
                key
            } else if old(self).entries@.len() >= old(self).capacity {
                old(self).entries@[0].key
            } else {
                key
            };
            assert(forall|k: TileKey| k != key && k != victim
                ==> (#[trigger] old(self).spec_has_tile(k) <==> final(self).spec_has_tile(k)));
        }
        Ok(())
    }

    /// Nearest-neighbor elevation query.  Validates the coordinate
    /// (out-of-coverage is a hard error), then answers from the cache
    /// (a hit), or counts a miss and names the tile to install.
    pub fn get_elevation(&mut self, c: Coord) -> (r: Result<QueryOutcome<i16>, SrtmError>)
        requires
            old(self).wf(),
        ensures
            final(self).wf(),
            final(self).spec_same_config(old(self)),
            final(self).spec_same_tiles(old(self)),
            r is Err <==> !spec_valid_coord(c),
            r matches Err(e) ==> e matches SrtmError::OutOfBounds { coord } && coord == c
                && *final(self) == *old(self),
            spec_valid_coord(c) && old(self).spec_has_tile(spec_key_of(c)) ==> {
                &&& r == Result::<QueryOutcome<i16>, SrtmError>::Ok(
                    QueryOutcome::Ready(
                        spec_value_nearest(old(self).spec_tile(spec_key_of(c)), c),
                    ),
                )
                &&& final(self).hit_count == sat_add(old(self).hit_count, 1)
                &&& final(self).miss_count == old(self).miss_count
            },
            spec_valid_coord(c) && !old(self).spec_has_tile(spec_key_of(c)) ==> {
                &&& r == Result::<QueryOutcome<i16>, SrtmError>::Ok(
                    QueryOutcome::NeedTile(spec_key_of(c)),
                )
                &&& final(self).miss_count == sat_add(old(self).miss_count, 1)
                &&& final(self).hit_count == old(self).hit_count
            },
    {
        if !is_valid_srtm_coord(c) {
            return Err(SrtmError::OutOfBounds { coord: c });
        }
        let key = to_tile_key(c);
        match self.find_entry(key) {
            Some(i) => {
                let v = self.entries[i].tile.get_elevation(c);
                self.touch(i);
                self.hit_count = Self::bump(self.hit_count);
                match v {
                    Ok(e) => {
                        if e == VOID_VALUE {
                            Ok(QueryOutcome::Ready(None))
                        } else {
                            Ok(QueryOutcome::Ready(Some(e)))
                        }
                    },
                    Err(_) => vstd::pervasive::unreached(),
                }
            },
            None => {
                self.miss_count = Self::bump(self.miss_count);
                Ok(QueryOutcome::NeedTile(key))
            },
        }
    }

    /// Floor-rounding elevation query; same protocol as
    /// [`Self::get_elevation`].
    pub fn get_elevation_floor(&mut self, c: Coord) -> (r: Result<QueryOutcome<i16>, SrtmError>)
        requires
            old(self).wf(),
        ensures
            final(self).wf(),
            final(self).spec_same_config(old(self)),
            final(self).spec_same_tiles(old(self)),
            r is Err <==> !spec_valid_coord(c),
            r matches Err(e) ==> e matches SrtmError::OutOfBounds { coord } && coord == c
                && *final(self) == *old(self),
            spec_valid_coord(c) && old(self).spec_has_tile(spec_key_of(c)) ==> {
                &&& r == Result::<QueryOutcome<i16>, SrtmError>::Ok(
                    QueryOutcome::Ready(spec_value_floor(old(self).spec_tile(spec_key_of(c)), c)),
                )
                &&& final(self).hit_count == sat_add(old(self).hit_count, 1)
                &&& final(self).miss_count == old(self).miss_count
            },
            spec_valid_coord(c) && !old(self).spec_has_tile(spec_key_of(c)) ==> {
                &&& r == Result::<QueryOutcome<i16>, SrtmError>::Ok(
                    QueryOutcome::NeedTile(spec_key_of(c)),
                )
                &&& final(self).miss_count == sat_add(old(self).miss_count, 1)
                &&& final(self).hit_count == old(self).hit_count
            },
    {
        if !is_valid_srtm_coord(c) {
            return Err(SrtmError::OutOfBounds { coord: c });
        }
        let key = to_tile_key(c);
        match self.find_entry(key) {
            Some(i) => {
                let v = self.entries[i].tile.get_elevation_floor(c);
                self.touch(i);
                self.hit_count = Self::bump(self.hit_count);
                match v {
                    Ok(e) => {
                        if e == VOID_VALUE {
                            Ok(QueryOutcome::Ready(None))
                        } else {
                            Ok(QueryOutcome::Ready(Some(e)))
                        }
                    },
                    Err(_) => vstd::pervasive::unreached(),
                }
            },
            None => {
                self.miss_count = Self::bump(self.miss_count);
                Ok(QueryOutcome::NeedTile(key))
            },
        }
    }

    /// Bilinearly interpolated elevation query; same protocol as
    /// [`Self::get_elevation`].  The ready value is scaled by
    /// [`crate::tile::INTERP_SCALE`], and is `None` when any of the
    /// four surrounding samples is void.
    pub fn get_elevation_interpolated(&mut self, c: Coord) -> (r: Result<
        QueryOutcome<i64>,
        SrtmError,
    >)
        requires
            old(self).wf(),
        ensures
            final(self).wf(),
            final(self).spec_same_config(old(self)),
            final(self).spec_same_tiles(old(self)),
            r is Err <==> !spec_valid_coord(c),
            r matches Err(e) ==> e matches SrtmError::OutOfBounds { coord } && coord == c
                && *final(self) == *old(self),
            spec_valid_coord(c) && old(self).spec_has_tile(spec_key_of(c)) ==> {
                &&& r == Result::<QueryOutcome<i64>, SrtmError>::Ok(
                    QueryOutcome::Ready(
                        old(self).spec_tile(spec_key_of(c)).spec_interpolated(c),
                    ),
                )
                &&& final(self).hit_count == sat_add(old(self).hit_count, 1)
                &&& final(self).miss_count == old(self).miss_count
            },
            spec_valid_coord(c) && !old(self).spec_has_tile(spec_key_of(c)) ==> {
                &&& r == Result::<QueryOutcome<i64>, SrtmError>::Ok(
                    QueryOutcome::NeedTile(spec_key_of(c)),
                )
                &&& final(self).miss_count == sat_add(old(self).miss_count, 1)
                &&& final(self).hit_count == old(self).hit_count
            },
    {
        if !is_valid_srtm_coord(c) {
            return Err(SrtmError::OutOfBounds { coord: c });
        }
        let key = to_tile_key(c);
        match self.find_entry(key) {
            Some(i) => {
                let v = self.entries[i].tile.get_elevation_interpolated(c);
                self.touch(i);
                self.hit_count = Self::bump(self.hit_count);
                match v {
                    Ok(e) => Ok(QueryOutcome::Ready(e)),
                    Err(_) => vstd::pervasive::unreached(),
                }
            },
            None => {
                self.miss_count = Self::bump(self.miss_count);
                Ok(QueryOutcome::NeedTile(key))
            },
        }
    }

    /// Answer a nearest-neighbor query from the cache alone, without
    /// touching counters or recency: `Ok(None)` when the tile is not
    /// resident (it could not be obtained) or the sample is void.
    pub fn read_elevation(&self, c: Coord) -> (r: Result<Option<i16>, SrtmError>)
        requires
            self.wf(),
        ensures
            r is Err <==> !spec_valid_coord(c),
            r matches Err(e) ==> e matches SrtmError::OutOfBounds { coord } && coord == c,
            spec_valid_coord(c) && self.spec_has_tile(spec_key_of(c)) ==> r == Result::<
                Option<i16>,
                SrtmError,
            >::Ok(spec_value_nearest(self.spec_tile(spec_key_of(c)), c)),
            spec_valid_coord(c) && !self.spec_has_tile(spec_key_of(c)) ==> r == Result::<
                Option<i16>,
                SrtmError,
            >::Ok(None),
    {
        if !is_valid_srtm_coord(c) {
            return Err(SrtmError::OutOfBounds { coord: c });
        }
        let key = to_tile_key(c);
        match self.find_entry(key) {
            Some(i) => match self.entries[i].tile.get_elevation(c) {
                Ok(e) => {
                    if e == VOID_VALUE {
                        Ok(None)
                    } else {
                        Ok(Some(e))
                    }
                },
                Err(_) => vstd::pervasive::unreached(),
            },
            None => Ok(None),
        }
    }

    /// Answer a floor-rounding query from the cache alone.
    pub fn read_elevation_floor(&self, c: Coord) -> (r: Result<Option<i16>, SrtmError>)
        requires
            self.wf(),
        ensures
            r is Err <==> !spec_valid_coord(c),
            r matches Err(e) ==> e matches SrtmError::OutOfBounds { coord } && coord == c,
            spec_valid_coord(c) && self.spec_has_tile(spec_key_of(c)) ==> r == Result::<
                Option<i16>,
                SrtmError,
            >::Ok(spec_value_floor(self.spec_tile(spec_key_of(c)), c)),
            spec_valid_coord(c) && !self.spec_has_tile(spec_key_of(c)) ==> r == Result::<
                Option<i16>,
                SrtmError,
            >::Ok(None),
    {
        if !is_valid_srtm_coord(c) {
            return Err(SrtmError::OutOfBounds { coord: c });
        }
        let key = to_tile_key(c);
        match self.find_entry(key) {
            Some(i) => match self.entries[i].tile.get_elevation_floor(c) {
                Ok(e) => {
                    if e == VOID_VALUE {
                        Ok(None)
                    } else {
                        Ok(Some(e))
                    }
                },
                Err(_) => vstd::pervasive::unreached(),
            },
            None => Ok(None),
        }
    }

    /// Answer an interpolated query from the cache alone; the value is
    /// scaled by [`crate::tile::INTERP_SCALE`].
    pub fn read_elevation_interpolated(&self, c: Coord) -> (r: Result<Option<i64>, SrtmError>)
        requires
            self.wf(),
        ensures
            r is Err <==> !spec_valid_coord(c),
            r matches Err(e) ==> e matches SrtmError::OutOfBounds { coord } && coord == c,
            spec_valid_coord(c) && self.spec_has_tile(spec_key_of(c)) ==> r == Result::<
                Option<i64>,
                SrtmError,
            >::Ok(self.spec_tile(spec_key_of(c)).spec_interpolated(c)),
            spec_valid_coord(c) && !self.spec_has_tile(spec_key_of(c)) ==> r == Result::<
                Option<i64>,
                SrtmError,
            >::Ok(None),
    {
        if !is_valid_srtm_coord(c) {
            return Err(SrtmError::OutOfBounds { coord: c });
        }
        let key = to_tile_key(c);
        match self.find_entry(key) {
            Some(i) => match self.entries[i].tile.get_elevation_interpolated(c) {
                Ok(e) => Ok(e),
                Err(_) => vstd::pervasive::unreached(),
            },
            None => Ok(None),
        }
    }

    /// The canonical filename of the tile a query for `c` needs.
    pub fn tile_filename_for(&self, c: Coord) -> (r: Result<String, SrtmError>)
        ensures
            r is Ok <==> spec_valid_coord(c),
            r matches Ok(name) ==> name@ == crate::filename::spec_tile_filename(
                floor_deg(c.lat_micro as int),
                floor_deg(c.lon_micro as int),
            ),
            r matches Err(e) ==> e matches SrtmError::OutOfBounds { coord } && coord == c,
    {
        if !is_valid_srtm_coord(c) {
            return Err(SrtmError::OutOfBounds { coord: c });
        }
        Ok(lat_lon_to_filename(c))
    }
}

/// Rounding policy for snapping a continuous grid position to a
/// sample index: true nearest, or the southwest-biased floor that
/// matches reference tools which always round down.
#[derive(Debug, Clone, Copy, PartialEq, Eq, Structural)]
pub enum RoundingMode {
    /// Round half up to the nearest sample.
    Nearest,
    /// Round down.
    Floor,
}

/// The tri-state value of a lookup in `t` under `mode`.
pub open spec fn spec_value_mode(t: SrtmTile, c: Coord, mode: RoundingMode) -> Option<i16> {
    match mode {
        RoundingMode::Nearest => spec_value_nearest(t, c),
        RoundingMode::Floor => spec_value_floor(t, c),
    }
}

/// The value a batch query yields for one coordinate: the sample when
/// the coordinate is valid, its tile resident, and the sample not
/// void; the caller's default otherwise.
pub open spec fn spec_batch_value(
    svc: SrtmService,
    c: Coord,
    default: i16,
    mode: RoundingMode,
) -> i16 {
    if !spec_valid_coord(c) {
        default
    } else if !svc.spec_has_tile(spec_key_of(c)) {
        default
    } else {
        match spec_value_mode(svc.spec_tile(spec_key_of(c)), c, mode) {
            Some(v) => v,
            None => default,
        }
    }
}

/// The interpolated batch value for one coordinate, scaled by
/// `crate::tile::INTERP_SCALE`; the default substitutes for invalid
/// coordinates, absent tiles and void corners.
pub open spec fn spec_batch_value_interp(svc: SrtmService, c: Coord, default: i64) -> i64 {
    if !spec_valid_coord(c) {
        default
    } else if !svc.spec_has_tile(spec_key_of(c)) {
        default
    } else {
        match svc.spec_tile(spec_key_of(c)).spec_interpolated(c) {
            Some(v) => v,
            None => default,
        }
    }
}

/// The distinct tile keys of the first `n` coordinates that are valid
/// but whose tile is not resident in `svc`: the tiles a batch must
/// load.
pub open spec fn spec_batch_miss_keys(coords: Seq<Coord>, n: int, svc: SrtmService) -> Set<
    TileKey,
> {
    Set::new(
        |k: TileKey|
            exists|j: int|
                0 <= j < n && spec_valid_coord(#[trigger] coords[j]) && spec_key_of(coords[j]) == k
                    && !svc.spec_has_tile(k),
    )
}

/// The distinct tile keys of the first `n` coordinates that are valid
/// and whose tile is resident in `svc`.
pub open spec fn spec_batch_hit_keys(coords: Seq<Coord>, n: int, svc: SrtmService) -> Set<
    TileKey,
> {
    Set::new(
        |k: TileKey|
            exists|j: int|
                0 <= j < n && spec_valid_coord(#[trigger] coords[j]) && spec_key_of(coords[j]) == k
                    && svc.spec_has_tile(k),
    )
}

/// Result of a batch scan: the per-coordinate values, in input order,
/// and the distinct keys of the tiles that were not resident (each
/// counted as one miss).  Install those tiles and finish with the
/// matching completion method.
pub struct BatchOutcome {
    /// One value per input coordinate, in input order.
    pub values: Vec<i16>,
    /// Distinct keys of tiles that must be loaded, in first-use order.
    pub needed: Vec<TileKey>,
}

/// Result of an interpolated batch scan; values are scaled by
/// `crate::tile::INTERP_SCALE`.
pub struct InterpolatedBatchOutcome {
    /// One scaled value per input coordinate, in input order.
    pub values: Vec<i64>,
    /// Distinct keys of tiles that must be loaded, in first-use order.
    pub needed: Vec<TileKey>,
}

/// Membership in a pushed sequence.
pub(crate) proof fn lemma_push_contains(s: Seq<TileKey>, x: TileKey, y: TileKey)
    ensures
        s.push(x).contains(y) <==> (s.contains(y) || x == y),
{
    if s.contains(y) {
        let i = choose|i: int| 0 <= i < s.len() && s[i] == y;
        assert(s.push(x)[i] == y);
    }
    if x == y {
        assert(s.push(x)[s.len() as int] == y);
    }
    if s.push(x).contains(y) {
        let i = choose|i: int| 0 <= i < s.push(x).len() && s.push(x)[i] == y;
        if i < s.len() {
            assert(s[i] == y);
        }
    }
}

/// Pushing a fresh element keeps a sequence duplicate-free.
pub(crate) proof fn lemma_push_no_dup(s: Seq<TileKey>, x: TileKey)
    requires
        s.no_duplicates(),
        !s.contains(x),
    ensures
        s.push(x).no_duplicates(),
{
    assert forall|i: int, j: int|
        0 <= i < j < s.push(x).len() implies s.push(x)[i] != s.push(x)[j] by {
        if j < s.len() {
        } else {
            assert(s.push(x)[j] == x);
            assert(s[i] == s.push(x)[i]);
        }
    }
}

impl SrtmService {
    /// Whether `v` holds `k`.
    fn vec_has_key(v: &Vec<TileKey>, k: TileKey) -> (r: bool)
        ensures
            r == v@.contains(k),
    {
        let n: usize = v.len();
        let mut i: usize = 0;
        while i < n
            invariant
                i <= n,
                n == v@.len(),
                forall|j: int| 0 <= j < i ==> v@[j] != k,
            decreases n - i,
        {
            if v[i] == k {
                return true;
            }
            i = i + 1;
        }
        false
    }

    /// Scan a batch of coordinates, counting one hit or one miss per
    /// distinct tile key, and produce one value per coordinate: the
    /// sample for resident tiles, the default for invalid coordinates,
    /// absent tiles and void samples.  The distinct keys of the absent
    /// tiles come back in `needed`; install them and call the matching
    /// completion method to fill in their coordinates.
    ///
    /// The number of tile loads a batch triggers is thus the number of
    /// distinct tiles touched, never the number of coordinates, and
    /// it does not depend on the input order.
    pub fn get_elevations_batch_mode(
        &mut self,
        coords: &Vec<Coord>,
        default: i16,
        mode: RoundingMode,
    ) -> (r: BatchOutcome)
        requires
            old(self).wf(),
        ensures
            final(self).wf(),
            final(self).spec_same_config(old(self)),
            final(self).entries@ == old(self).entries@,
            r.values@.len() == coords@.len(),
            forall|i: int|
                0 <= i < coords@.len() ==> r.values@[i] == spec_batch_value(
                    *old(self),
                    #[trigger] coords@[i],
                    default,
                    mode,
                ),
            r.needed@.no_duplicates(),
            forall|k: TileKey|
                #[trigger] r.needed@.contains(k) <==> spec_batch_miss_keys(
                    coords@,
                    coords@.len() as int,
                    *old(self),
                ).contains(k),
            final(self).miss_count == sat_add(old(self).miss_count, r.needed@.len()),
            final(self).hit_count == sat_add(
                old(self).hit_count,
                spec_batch_hit_keys(coords@, coords@.len() as int, *old(self)).len(),
            ),
    {
        let ghost svc0 = *self;
        let needed = self.scan_batch(coords);
        let values = self.sample_batch_mode(coords, default, mode);
        proof {
            assert forall|j: int| 0 <= j < coords@.len() implies values@[j] == spec_batch_value(
                svc0,
                #[trigger] coords@[j],
                default,
                mode,
            ) by {}
        }
        BatchOutcome { values, needed }
    }

    /// Count one hit or one miss per distinct tile key used by the
    /// batch, and collect the keys of the tiles that must be loaded.
    fn scan_batch(&mut self, coords: &Vec<Coord>) -> (needed: Vec<TileKey>)
        requires
            old(self).wf(),
        ensures
            final(self).wf(),
            final(self).spec_same_config(old(self)),
            final(self).entries@ == old(self).entries@,
            needed@.no_duplicates(),
            forall|k: TileKey|
                #[trigger] needed@.contains(k) <==> spec_batch_miss_keys(
                    coords@,
                    coords@.len() as int,
                    *old(self),
                ).contains(k),
            final(self).miss_count == sat_add(old(self).miss_count, needed@.len()),
            final(self).hit_count == sat_add(
                old(self).hit_count,
                spec_batch_hit_keys(coords@, coords@.len() as int, *old(self)).len(),
            ),
    {
        let ghost svc0 = *self;
        let n: usize = coords.len();
        let mut needed: Vec<TileKey> = Vec::new();
        let mut seen: Vec<TileKey> = Vec::new();
        let mut i: usize = 0;
        while i < n
            invariant
                self.wf(),
                i <= n,
                n == coords@.len(),
                self.entries@ == svc0.entries@,
                self.capacity == svc0.capacity,
                self.data_dir == svc0.data_dir,
                needed@.no_duplicates(),
                seen@.no_duplicates(),
                forall|k: TileKey|
                    #[trigger] needed@.contains(k) <==> spec_batch_miss_keys(
                        coords@,
                        i as int,
                        svc0,
                    ).contains(k),
                forall|k: TileKey|
                    #[trigger] seen@.contains(k) <==> spec_batch_hit_keys(
                        coords@,
                        i as int,
                        svc0,
                    ).contains(k),
                self.miss_count == sat_add(svc0.miss_count, needed@.len()),
                self.hit_count == sat_add(svc0.hit_count, seen@.len()),
            decreases n - i,
        {
            let c = coords[i];
            if is_valid_srtm_coord(c) {
                let k = to_tile_key(c);
                match self.find_entry(k) {
                    Some(_) => {
                        if !Self::vec_has_key(&seen, k) {
                            proof {
                                lemma_push_no_dup(seen@, k);
                            }
                            let ghost seen0 = seen@;
                            seen.push(k);
                            self.hit_count = Self::bump(self.hit_count);
                            proof {
                                assert forall|q: TileKey| #[trigger] seen0.push(k).contains(q)
                                    <==> spec_batch_hit_keys(
                                    coords@,
                                    i + 1 as int,
                                    svc0,
                                ).contains(q) by {
                                    lemma_push_contains(seen0, k, q);
                                }
                            }
                        } else {
                            proof {
                                assert forall|q: TileKey| #[trigger] seen@.contains(q)
                                    <==> spec_batch_hit_keys(
                                    coords@,
                                    i + 1 as int,
                                    svc0,
                                ).contains(q) by {}
                            }
                        }
                        proof {
                            assert forall|q: TileKey| #[trigger] needed@.contains(q)
                                <==> spec_batch_miss_keys(coords@, i + 1 as int, svc0).contains(
                                q,
                            ) by {}
                        }
                    },
                    None => {
                        if !Self::vec_has_key(&needed, k) {
                            proof {
                                lemma_push_no_dup(needed@, k);
                            }
                            let ghost needed0 = needed@;
                            needed.push(k);
                            self.miss_count = Self::bump(self.miss_count);
                            proof {
                                assert forall|q: TileKey| #[trigger] needed0.push(k).contains(q)
                                    <==> spec_batch_miss_keys(
                                    coords@,
                                    i + 1 as int,
                                    svc0,
                                ).contains(q) by {
                                    lemma_push_contains(needed0, k, q);
                                }
                            }
                        } else {
                            proof {
                                assert forall|q: TileKey| #[trigger] needed@.contains(q)
                                    <==> spec_batch_miss_keys(
                                    coords@,
                                    i + 1 as int,
                                    svc0,
                                ).contains(q) by {}
                            }
                        }
                        proof {
                            assert forall|q: TileKey| #[trigger] seen@.contains(q)
                                <==> spec_batch_hit_keys(coords@, i + 1 as int, svc0).contains(
                                q,
                            ) by {}
                        }
                    },
                }
            } else {
                proof {
                    assert forall|q: TileKey| #[trigger] needed@.contains(q)
                        <==> spec_batch_miss_keys(coords@, i + 1 as int, svc0).contains(q) by {}
                    assert forall|q: TileKey| #[trigger] seen@.contains(q)
                        <==> spec_batch_hit_keys(coords@, i + 1 as int, svc0).contains(q) by {}
                }
            }
            i = i + 1;
        }
        proof {
            seen@.unique_seq_to_set();
            needed@.unique_seq_to_set();
            assert(seen@.to_set() =~= spec_batch_hit_keys(coords@, n as int, svc0));
            assert(needed@.to_set() =~= spec_batch_miss_keys(coords@, n as int, svc0));
        }
        needed
    }

    /// One batch value per coordinate, read from the cache as it
    /// stands, with no effect on counters or recency.
    fn sample_batch_mode(&self, coords: &Vec<Coord>, default: i16, mode: RoundingMode) -> (r: Vec<
        i16,
    >)
        requires
            self.wf(),
        ensures
            r@.len() == coords@.len(),
            forall|i: int|
                0 <= i < coords@.len() ==> r@[i] == spec_batch_value(
                    *self,
                    #[trigger] coords@[i],
                    default,
                    mode,
                ),
    {
        let n: usize = coords.len();
        let mut values: Vec<i16> = Vec::new();
        let mut i: usize = 0;
        while i < n
            invariant
                self.wf(),
                i <= n,
                n == coords@.len(),
                values@.len() == i,
                forall|j: int|
                    0 <= j < i ==> values@[j] == spec_batch_value(
                        *self,
                        #[trigger] coords@[j],
                        default,
                        mode,
                    ),
            decreases n - i,
        {
            let c = coords[i];
            let mut val: i16 = default;
            if is_valid_srtm_coord(c) {
                let k = to_tile_key(c);
                match self.find_entry(k) {
                    Some(j) => {
                        let sampled = match mode {
                            RoundingMode::Nearest => self.entries[j].tile.get_elevation(c),
                            RoundingMode::Floor => self.entries[j].tile.get_elevation_floor(c),
                        };
                        match sampled {
                            Ok(v) => {
                                if v != VOID_VALUE {
                                    val = v;
                                }
                            },
                            Err(_) => val = vstd::pervasive::unreached(),
                        }
                    },
                    None => {},
                }
            }
            values.push(val);
            i = i + 1;
        }
        values
    }

    /// Batch nearest-neighbor query: see
    /// [`Self::get_elevations_batch_mode`].
    pub fn get_elevations_batch(&mut self, coords: &Vec<Coord>, default: i16) -> (r: BatchOutcome)
        requires
            old(self).wf(),
        ensures
            final(self).wf(),
            final(self).spec_same_config(old(self)),
            final(self).entries@ == old(self).entries@,
            r.values@.len() == coords@.len(),
            forall|i: int|
                0 <= i < coords@.len() ==> r.values@[i] == spec_batch_value(
                    *old(self),
                    #[trigger] coords@[i],
                    default,
                    RoundingMode::Nearest,
                ),
            r.needed@.no_duplicates(),
            forall|k: TileKey|
                #[trigger] r.needed@.contains(k) <==> spec_batch_miss_keys(
                    coords@,
                    coords@.len() as int,
                    *old(self),
                ).contains(k),
            final(self).miss_count == sat_add(old(self).miss_count, r.needed@.len()),
            final(self).hit_count == sat_add(
                old(self).hit_count,
                spec_batch_hit_keys(coords@, coords@.len() as int, *old(self)).len(),
            ),
    {
        self.get_elevations_batch_mode(coords, default, RoundingMode::Nearest)
    }

    /// Batch floor-rounding query: see
    /// [`Self::get_elevations_batch_mode`].
    pub fn get_elevations_batch_floor(&mut self, coords: &Vec<Coord>, default: i16) -> (r:
        BatchOutcome)
        requires
            old(self).wf(),
        ensures
            final(self).wf(),
            final(self).spec_same_config(old(self)),
            final(self).entries@ == old(self).entries@,
            r.values@.len() == coords@.len(),
            forall|i: int|
                0 <= i < coords@.len() ==> r.values@[i] == spec_batch_value(
                    *old(self),
                    #[trigger] coords@[i],
                    default,
                    RoundingMode::Floor,
                ),
            r.needed@.no_duplicates(),
            forall|k: TileKey|
                #[trigger] r.needed@.contains(k) <==> spec_batch_miss_keys(
                    coords@,
                    coords@.len() as int,
                    *old(self),
                ).contains(k),
            final(self).miss_count == sat_add(old(self).miss_count, r.needed@.len()),
            final(self).hit_count == sat_add(
                old(self).hit_count,
                spec_batch_hit_keys(coords@, coords@.len() as int, *old(self)).len(),
            ),
    {
        self.get_elevations_batch_mode(coords, default, RoundingMode::Floor)
    }

    /// Finish a batch after the needed tiles were installed: every
    /// coordinate whose tile is now resident is re-sampled; the rest
    /// keep their prior value.
    pub fn complete_elevations_batch(
        &self,
        coords: &Vec<Coord>,
        values: Vec<i16>,
        default: i16,
        mode: RoundingMode,
    ) -> (r: Vec<i16>)
        requires
            self.wf(),
            values@.len() == coords@.len(),
        ensures
            r@.len() == coords@.len(),
            forall|i: int|
                0 <= i < coords@.len() ==> r@[i] == (if spec_valid_coord(#[trigger] coords@[i])
                    && self.spec_has_tile(spec_key_of(coords@[i])) {
                    spec_batch_value(*self, coords@[i], default, mode)
                } else {
                    values@[i]
                }),
    {
        let n: usize = coords.len();
        let mut out: Vec<i16> = Vec::new();
        let mut i: usize = 0;
        while i < n
            invariant
                self.wf(),
                i <= n,
                n == coords@.len(),
                values@.len() == coords@.len(),
                out@.len() == i,
                forall|j: int|
                    0 <= j < i ==> out@[j] == (if spec_valid_coord(#[trigger] coords@[j])
                        && self.spec_has_tile(spec_key_of(coords@[j])) {
                        spec_batch_value(*self, coords@[j], default, mode)
                    } else {
                        values@[j]
                    }),
            decreases n - i,
        {
            let c = coords[i];
            let mut val: i16 = values[i];
            if is_valid_srtm_coord(c) {
                let k = to_tile_key(c);
                match self.find_entry(k) {
                    Some(j) => {
                        let sampled = match mode {
                            RoundingMode::Nearest => self.entries[j].tile.get_elevation(c),
                            RoundingMode::Floor => self.entries[j].tile.get_elevation_floor(c),
                        };
                        match sampled {
                            Ok(v) => {
                                if v != VOID_VALUE {
                                    val = v;
                                } else {
                                    val = default;
                                }
                            },
                            Err(_) => val = vstd::pervasive::unreached(),
                        }
                    },
                    None => {},
                }
            }
            out.push(val);
            i = i + 1;
        }
        out
    }
}

impl SrtmService {
    /// Batch bilinear-interpolation query: the protocol of
    /// [`Self::get_elevations_batch_mode`], with values scaled by
    /// `crate::tile::INTERP_SCALE` and the default substituted for
    /// invalid coordinates, absent tiles and void corners.
    pub fn get_elevations_batch_interpolated(&mut self, coords: &Vec<Coord>, default: i64) -> (r:
        InterpolatedBatchOutcome)
        requires
            old(self).wf(),
        ensures
            final(self).wf(),
            final(self).spec_same_config(old(self)),
            final(self).entries@ == old(self).entries@,
            r.values@.len() == coords@.len(),
            forall|i: int|
                0 <= i < coords@.len() ==> r.values@[i] == spec_batch_value_interp(
                    *old(self),
                    #[trigger] coords@[i],
                    default,
                ),
            r.needed@.no_duplicates(),
            forall|k: TileKey|
                #[trigger] r.needed@.contains(k) <==> spec_batch_miss_keys(
                    coords@,
                    coords@.len() as int,
                    *old(self),
                ).contains(k),
            final(self).miss_count == sat_add(old(self).miss_count, r.needed@.len()),
            final(self).hit_count == sat_add(
                old(self).hit_count,
                spec_batch_hit_keys(coords@, coords@.len() as int, *old(self)).len(),
            ),
    {
        let ghost svc0 = *self;
        let needed = self.scan_batch(coords);
        let values = self.sample_batch_interpolated(coords, default);
        proof {
            assert forall|j: int| 0 <= j < coords@.len() implies values@[j]
                == spec_batch_value_interp(svc0, #[trigger] coords@[j], default) by {}
        }
        InterpolatedBatchOutcome { values, needed }
    }

    /// One interpolated batch value per coordinate, read from the
    /// cache as it stands.
    fn sample_batch_interpolated(&self, coords: &Vec<Coord>, default: i64) -> (r: Vec<i64>)
        requires
            self.wf(),
        ensures
            r@.len() == coords@.len(),
            forall|i: int|
                0 <= i < coords@.len() ==> r@[i] == spec_batch_value_interp(
                    *self,
                    #[trigger] coords@[i],
                    default,
                ),
    {
        let n: usize = coords.len();
        let mut values: Vec<i64> = Vec::new();
        let mut i: usize = 0;
        while i < n
            invariant
                self.wf(),
                i <= n,
                n == coords@.len(),
                values@.len() == i,
                forall|j: int|
                    0 <= j < i ==> values@[j] == spec_batch_value_interp(
                        *self,
                        #[trigger] coords@[j],
                        default,
                    ),
            decreases n - i,
        {
            let c = coords[i];
            let mut val: i64 = default;
            if is_valid_srtm_coord(c) {
                let k = to_tile_key(c);
                match self.find_entry(k) {
                    Some(j) => {
                        match self.entries[j].tile.get_elevation_interpolated(c) {
                            Ok(Some(v)) => val = v,
                            Ok(None) => {},
                            Err(_) => val = vstd::pervasive::unreached(),
                        }
                    },
                    None => {},
                }
            }
            values.push(val);
            i = i + 1;
        }
        values
    }

    /// Finish an interpolated batch after the needed tiles were
    /// installed: every coordinate whose tile is now resident is
    /// re-sampled; the rest keep their prior value.
    pub fn complete_elevations_batch_interpolated(
        &self,
        coords: &Vec<Coord>,
        values: Vec<i64>,
        default: i64,
    ) -> (r: Vec<i64>)
        requires
            self.wf(),
            values@.len() == coords@.len(),
        ensures
            r@.len() == coords@.len(),
            forall|i: int|
                0 <= i < coords@.len() ==> r@[i] == (if spec_valid_coord(#[trigger] coords@[i])
                    && self.spec_has_tile(spec_key_of(coords@[i])) {
                    spec_batch_value_interp(*self, coords@[i], default)
                } else {
                    values@[i]
                }),
    {
        let n: usize = coords.len();
        let mut out: Vec<i64> = Vec::new();
        let mut i: usize = 0;
        while i < n
            invariant
                self.wf(),
                i <= n,
                n == coords@.len(),
                values@.len() == coords@.len(),
                out@.len() == i,
                forall|j: int|
                    0 <= j < i ==> out@[j] == (if spec_valid_coord(#[trigger] coords@[j])
                        && self.spec_has_tile(spec_key_of(coords@[j])) {
                        spec_batch_value_interp(*self, coords@[j], default)
                    } else {
                        values@[j]
                    }),
            decreases n - i,
        {
            let c = coords[i];
            let mut val: i64 = values[i];
            if is_valid_srtm_coord(c) {
                let k = to_tile_key(c);
                match self.find_entry(k) {
                    Some(j) => {
                        match self.entries[j].tile.get_elevation_interpolated(c) {
                            Ok(Some(v)) => val = v,
                            Ok(None) => val = default,
                            Err(_) => val = vstd::pervasive::unreached(),
                        }
                    },
                    None => {},
                }
            }
            out.push(val);
            i = i + 1;
        }
        out
    }
}

/// Configuration collected before constructing an [`SrtmService`]:
/// the data directory, the cache capacity, and an optional download
/// configuration that the caller driving tile acquisition can read
/// back.
pub struct SrtmServiceBuilder {
    /// Directory holding the tile files.
    pub data_dir: String,
    /// Maximum number of resident tiles.
    pub cache_size: u64,
    /// Acquisition configuration for missing tiles, if enabled.
    pub download_config: Option<crate::download::DownloadConfig>,
}

impl SrtmServiceBuilder {
    /// Start building a service over `data_dir`; the cache holds 100
    /// tiles unless changed.
    pub fn new(data_dir: String) -> (r: SrtmServiceBuilder)
        ensures
            r.data_dir == data_dir,
            r.cache_size == 100,
            r.download_config is None,
    {
        SrtmServiceBuilder { data_dir, cache_size: 100, download_config: None }
    }

    /// Replace the data directory.
    pub fn data_dir(self, path: String) -> (r: SrtmServiceBuilder)
        ensures
            r.data_dir == path,
            r.cache_size == self.cache_size,
            r.download_config == self.download_config,
    {
        SrtmServiceBuilder { data_dir: path, ..self }
    }

    /// Replace the maximum number of resident tiles.
    pub fn cache_size(self, size: u64) -> (r: SrtmServiceBuilder)
        ensures
            r.cache_size == size,
            r.data_dir == self.data_dir,
            r.download_config == self.download_config,
    {
        SrtmServiceBuilder { cache_size: size, ..self }
    }

    /// Enable acquisition of missing tiles with this configuration;
    /// the caller driving the loads reads it back from the builder.
    pub fn auto_download(self, config: crate::download::DownloadConfig) -> (r: SrtmServiceBuilder)
        ensures
            r.download_config is Some,
            r.data_dir == self.data_dir,
            r.cache_size == self.cache_size,
    {
        SrtmServiceBuilder { download_config: Some(config), ..self }
    }

    /// Build the service.
    pub fn build(self) -> (s: SrtmService)
        ensures
            s.wf(),
            s.capacity == self.cache_size,
            s.data_dir == self.data_dir,
            s.hit_count == 0,
            s.miss_count == 0,
            s.entries@.len() == 0,
    {
        SrtmService::new(self.data_dir, self.cache_size)
    }
}

impl SrtmService {
    /// Start building a service with more configuration options.
    pub fn builder(data_dir: String) -> (r: SrtmServiceBuilder)
        ensures
            r.data_dir == data_dir,
            r.cache_size == 100,
            r.download_config is None,
    {
        SrtmServiceBuilder::new(data_dir)
    }
}

/// The tiles a batch must load do not depend on the order of its
/// coordinates: two batches over rearrangements of the same
/// coordinates name the same tile keys, so they record the same
/// number of misses.
pub proof fn lemma_batch_misses_order_independent(
    coords1: Seq<Coord>,
    coords2: Seq<Coord>,
    svc: SrtmService,
)
    requires
        coords1.to_multiset() == coords2.to_multiset(),
    ensures
        spec_batch_miss_keys(coords1, coords1.len() as int, svc) == spec_batch_miss_keys(
            coords2,
            coords2.len() as int,
            svc,
        ),
{
    coords1.to_multiset_ensures();
    coords2.to_multiset_ensures();
    assert(coords1.len() == coords2.len());
    assert forall|k: TileKey|
        spec_batch_miss_keys(coords1, coords1.len() as int, svc).contains(k)
            == spec_batch_miss_keys(coords2, coords2.len() as int, svc).contains(k) by {
        if spec_batch_miss_keys(coords1, coords1.len() as int, svc).contains(k) {
            let j = choose|j: int|
                0 <= j < coords1.len() && spec_valid_coord(#[trigger] coords1[j]) && spec_key_of(
                    coords1[j],
                ) == k && !svc.spec_has_tile(k);
            assert(coords1.contains(coords1[j]));
            assert(coords1.to_multiset().count(coords1[j]) > 0);
            assert(coords2.to_multiset().count(coords1[j]) > 0);
            assert(coords2.contains(coords1[j]));
        }
        if spec_batch_miss_keys(coords2, coords2.len() as int, svc).contains(k) {
            let j = choose|j: int|
                0 <= j < coords2.len() && spec_valid_coord(#[trigger] coords2[j]) && spec_key_of(
                    coords2[j],
                ) == k && !svc.spec_has_tile(k);
            assert(coords2.contains(coords2[j]));
            assert(coords2.to_multiset().count(coords2[j]) > 0);
            assert(coords1.to_multiset().count(coords2[j]) > 0);
            assert(coords1.contains(coords2[j]));
        }
    }
    assert(spec_batch_miss_keys(coords1, coords1.len() as int, svc)
        =~= spec_batch_miss_keys(coords2, coords2.len() as int, svc));
}

} // verus!
