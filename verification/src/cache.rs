//! HTTP response cache: responses are keyed by a digest of method and URL,
//! served only while their TTL lasts, and evicted least-recently-used when
//! the byte budget would be exceeded.

use vstd::prelude::*;

use crate::crypto::b64url_encode;
use crate::crypto::sha256;
use crate::crypto::spec_b64url_of;
use crate::crypto::spec_sha256_of;
use crate::runtime::now_ms;
use crate::text::str_eq;

verus! {

use vstd::utf8::encode_utf8;

/// A cached HTTP response.  Timestamps are milliseconds since the epoch.
#[derive(Debug, Clone)]
pub struct CachedResponse {
    /// Cache key: a digest of method and URL.
    pub cache_key: String,
    /// HTTP status code.
    pub status_code: u16,
    /// Response headers as JSON.
    pub headers_json: String,
    /// Response body.
    pub body: String,
    /// When this entry was cached.
    pub cached_at: i64,
    /// When this entry expires.
    pub expires_at: i64,
    /// ETag for conditional requests.
    pub etag: Option<String>,
    /// Last-Modified header for conditional requests.
    pub last_modified: Option<String>,
    /// Size of the body in bytes; authoritative for size accounting.
    pub body_size: u64,
    /// When this entry was last read, for eviction ordering.
    pub last_accessed_at: i64,
}

impl CachedResponse {
    /// An exact copy of this entry.
    pub fn duplicate(&self) -> (r: CachedResponse)
        ensures
            r == *self,
    {
        CachedResponse {
            cache_key: self.cache_key.clone(),
            status_code: self.status_code,
            headers_json: self.headers_json.clone(),
            body: self.body.clone(),
            cached_at: self.cached_at,
            expires_at: self.expires_at,
            etag: crate::crdt::opt_string_duplicate(&self.etag),
            last_modified: crate::crdt::opt_string_duplicate(&self.last_modified),
            body_size: self.body_size,
            last_accessed_at: self.last_accessed_at,
        }
    }
}

/// Cache statistics.  The hit rate is reported in thousandths.
#[derive(Debug, Clone, Copy, PartialEq, Eq, Structural)]
pub struct CacheStats {
    /// Entries in the cache, expired ones included.
    pub total_entries: u64,
    /// Total body bytes held.
    pub total_size_bytes: u64,
    /// Reads served from the cache.
    pub hit_count: u64,
    /// Reads that found nothing usable.
    pub miss_count: u64,
    /// `hits * 1000 / (hits + misses)`, 0 when nothing was asked yet.
    pub hit_rate_permille: u64,
}

/// Errors of the response cache.
#[derive(Debug, Clone)]
pub enum CacheError {
    /// Backing-store failure.
    DatabaseError(String),
    /// Nothing usable cached.
    CacheMiss,
}

/// The cache key for a method and URL: the URL-safe unpadded base64 of the
/// SHA-256 digest of `method || ":" || url`.
pub open spec fn spec_cache_key(method: Seq<char>, url: Seq<char>) -> Seq<char> {
    spec_b64url_of(spec_sha256_of(encode_utf8(method) + seq![58u8] + encode_utf8(url)))
}

/// A counter bumped by one, saturating at the top.
pub open spec fn spec_inc_sat(x: u64) -> u64 {
    if x < u64::MAX {
        (x + 1) as u64
    } else {
        u64::MAX
    }
}

/// Whether an entry is still fresh at time `now`.
pub open spec fn spec_fresh(e: CachedResponse, now: i64) -> bool {
    e.expires_at > now
}

/// The eviction discipline: a fresh row of the prior state that was evicted
/// never outranks a survivor — its last access is at most every survivor's.
pub open spec fn spec_lru_ordered(
    before: Seq<CachedResponse>,
    after: Seq<CachedResponse>,
    now: i64,
) -> bool {
    forall|i: int, j: int|
        0 <= i < before.len() && spec_fresh(#[trigger] before[i], now) && !after.contains(
            before[i],
        ) && 0 <= j < after.len() ==> before[i].last_accessed_at <= (
        #[trigger] after[j]).last_accessed_at
}

/// The bytes the cached bodies account for.
pub open spec fn spec_total_size(s: Seq<CachedResponse>) -> int
    decreases s.len(),
{
    if s.len() == 0 {
        0
    } else {
        spec_total_size(s.drop_last()) + s.last().body_size
    }
}

/// Whether the rows carry pairwise distinct cache keys.
pub open spec fn spec_cache_unique(s: Seq<CachedResponse>) -> bool {
    forall|i: int, j: int|
        0 <= i < j < s.len() ==> (#[trigger] s[i].cache_key@) != (#[trigger] s[j].cache_key@)
}

/// Filtering keeps the keys pairwise distinct.
proof fn lemma_cache_filter_unique(s: Seq<CachedResponse>, pred: spec_fn(CachedResponse) -> bool)
    requires
        spec_cache_unique(s),
    ensures
        spec_cache_unique(s.filter(pred)),
    decreases s.len(),
{
    reveal(Seq::filter);
    if s.len() > 0 {
        let dl = s.drop_last();
        assert(spec_cache_unique(dl));
        lemma_cache_filter_unique(dl, pred);
        if pred(s.last()) {
            let f = dl.filter(pred).push(s.last());
            assert(s.filter(pred) == f);
            assert forall|i: int| 0 <= i < dl.filter(pred).len() implies (#[trigger] dl.filter(
                pred,
            )[i].cache_key@) != s.last().cache_key@ by {
                dl.lemma_filter_contains_rev(pred, dl.filter(pred)[i]);
                let j: int = choose|j: int| 0 <= j < dl.len() && dl[j] == dl.filter(pred)[i];
                assert(s[j] == dl[j]);
                assert(s[j].cache_key@ != s[s.len() - 1].cache_key@);
            }
            assert forall|a: int, b: int| 0 <= a < b < f.len() implies (
            #[trigger] f[a].cache_key@) != (#[trigger] f[b].cache_key@) by {
                if b < f.len() - 1 {
                    assert(f[a] == dl.filter(pred)[a]);
                    assert(f[b] == dl.filter(pred)[b]);
                } else {
                    assert(f[a] == dl.filter(pred)[a]);
                    assert(f[b] == s.last());
                }
            }
        }
    }
}

/// Removing one row keeps the keys pairwise distinct.
proof fn lemma_cache_remove_unique(s: Seq<CachedResponse>, i: int)
    requires
        spec_cache_unique(s),
        0 <= i < s.len(),
    ensures
        spec_cache_unique(s.remove(i)),
{
    let t = s.remove(i);
    assert forall|a: int, b: int| 0 <= a < b < t.len() implies (#[trigger] t[a].cache_key@) != (
    #[trigger] t[b].cache_key@) by {
        let a0: int = if a < i {
            a
        } else {
            a + 1
        };
        let b0: int = if b < i {
            b
        } else {
            b + 1
        };
        assert(t[a] == s[a0]);
        assert(t[b] == s[b0]);
    }
}

/// The eviction discipline of a store on key `key` at time `t`: a fresh
/// row of the prior state under another key that was evicted never
/// outranks a surviving row other than the newly stored last one.
pub open spec fn spec_put_lru_ordered(
    before: Seq<CachedResponse>,
    after: Seq<CachedResponse>,
    key: Seq<char>,
    t: i64,
) -> bool {
    forall|i: int, j: int|
        0 <= i < before.len() && spec_fresh(#[trigger] before[i], t) && before[i].cache_key@ != key
            && !after.contains(before[i]) && 0 <= j < after.len() - 1 ==> before[i].last_accessed_at
            <= (#[trigger] after[j]).last_accessed_at
}

/// One cache hit on key `key`: `e` is a stored row carrying the key, and
/// the new rows differ from the old only in that row's last access time.
pub open spec fn spec_hit_step(
    rows: Seq<CachedResponse>,
    nrows: Seq<CachedResponse>,
    key: Seq<char>,
    e: CachedResponse,
) -> bool {
    exists|i: int|
        {
            &&& 0 <= i < rows.len()
            &&& e == #[trigger] rows[i]
            &&& rows[i].cache_key@ == key
            &&& nrows == rows.update(
                i,
                CachedResponse { last_accessed_at: nrows[i].last_accessed_at, ..rows[i] },
            )
        }
}

/// The rows an expiry sweep at time `now` leaves behind, in order.
pub open spec fn spec_fresh_swept(rows: Seq<CachedResponse>, now: i64) -> Seq<CachedResponse>
    decreases rows.len(),
{
    if rows.len() == 0 {
        Seq::empty()
    } else if spec_fresh(rows.last(), now) {
        spec_fresh_swept(rows.drop_last(), now).push(rows.last())
    } else {
        spec_fresh_swept(rows.drop_last(), now)
    }
}

/// A sweep keeps only rows of the input, never more of them.
proof fn lemma_fresh_swept_from(rows: Seq<CachedResponse>, now: i64)
    ensures
        spec_fresh_swept(rows, now).len() <= rows.len(),
        forall|k: int|
            0 <= k < spec_fresh_swept(rows, now).len() ==> rows.contains(
                #[trigger] spec_fresh_swept(rows, now)[k],
            ),
    decreases rows.len(),
{
    if rows.len() > 0 {
        lemma_fresh_swept_from(rows.drop_last(), now);
        assert forall|k: int|
            0 <= k < spec_fresh_swept(rows, now).len() implies rows.contains(
            #[trigger] spec_fresh_swept(rows, now)[k],
        ) by {
            let sw = spec_fresh_swept(rows, now);
            if k < spec_fresh_swept(rows.drop_last(), now).len() {
                assert(sw[k] == spec_fresh_swept(rows.drop_last(), now)[k]);
                let j: int = choose|j: int|
                    0 <= j < rows.drop_last().len() && rows.drop_last()[j] == sw[k];
                assert(rows[j] == sw[k]);
            } else {
                assert(sw[k] == rows.last());
                assert(rows[rows.len() - 1] == sw[k]);
            }
        }
    }
}

/// A sweep of a duplicate-free row list stays duplicate-free.
proof fn lemma_fresh_swept_unique(rows: Seq<CachedResponse>, now: i64)
    requires
        spec_cache_unique(rows),
    ensures
        spec_cache_unique(spec_fresh_swept(rows, now)),
    decreases rows.len(),
{
    if rows.len() > 0 {
        let dl = rows.drop_last();
        assert(spec_cache_unique(dl));
        lemma_fresh_swept_unique(dl, now);
        lemma_fresh_swept_from(dl, now);
        if spec_fresh(rows.last(), now) {
            let f = spec_fresh_swept(dl, now).push(rows.last());
            assert forall|i: int|
                0 <= i < spec_fresh_swept(dl, now).len() implies (#[trigger] spec_fresh_swept(
                dl,
                now,
            )[i].cache_key@) != rows.last().cache_key@ by {
                let j: int = choose|j: int|
                    0 <= j < dl.len() && dl[j] == spec_fresh_swept(dl, now)[i];
                assert(rows[j] == dl[j]);
                assert(rows[j].cache_key@ != rows[rows.len() - 1].cache_key@);
            }
            assert forall|a: int, b: int| 0 <= a < b < f.len() implies (
            #[trigger] f[a].cache_key@) != (#[trigger] f[b].cache_key@) by {
                if b < f.len() - 1 {
                    assert(f[a] == spec_fresh_swept(dl, now)[a]);
                    assert(f[b] == spec_fresh_swept(dl, now)[b]);
                } else {
                    assert(f[a] == spec_fresh_swept(dl, now)[a]);
                    assert(f[b] == rows.last());
                }
            }
        }
    }
}

/// A SQLite table keeps this cache durable in deployment; here it is the
/// verified in-memory model the cache logic is proved against.
pub struct HttpCache {
    rows: Vec<CachedResponse>,
    max_size_bytes: u64,
    hit_count: u64,
    miss_count: u64,
}

impl HttpCache {
    /// The cached entries, in insertion order.
    pub closed spec fn view(&self) -> Seq<CachedResponse> {
        self.rows@
    }

    /// The byte budget the cache was created with.
    pub closed spec fn spec_max_size(&self) -> u64 {
        self.max_size_bytes
    }

    /// Reads served from the cache so far.
    pub closed spec fn spec_hits(&self) -> u64 {
        self.hit_count
    }

    /// Reads that found nothing usable so far.
    pub closed spec fn spec_misses(&self) -> u64 {
        self.miss_count
    }

    /// Well-formed: no two entries share a cache key.
    pub open spec fn wf(&self) -> bool {
        spec_cache_unique(self@)
    }

    /// Create an empty cache with a byte budget.  The path names the
    /// durable table a deployment would mirror this cache into.
    pub fn new(db_path: &str, max_size_bytes: u64) -> (r: Result<HttpCache, CacheError>)
        ensures
            r matches Ok(c) ==> c.wf() && c@ =~= Seq::<CachedResponse>::empty() && c.spec_max_size()
                == max_size_bytes && c.spec_hits() == 0 && c.spec_misses() == 0,
    {
        Ok(HttpCache { rows: Vec::new(), max_size_bytes, hit_count: 0, miss_count: 0 })
    }

    /// Generate the cache key for a method and URL.
    pub fn generate_key(method: &str, url: &str) -> (r: String)
        ensures
            r@ == spec_cache_key(method@, url@),
    {
        let mut message: Vec<u8> = Vec::new();
        message.extend_from_slice(method.as_bytes());
        message.push(58);
        message.extend_from_slice(url.as_bytes());
        proof {
            assert(message@ =~= encode_utf8(method@) + seq![58u8] + encode_utf8(url@));
        }
        let digest: Vec<u8> = sha256(message.as_slice());
        b64url_encode(digest.as_slice())
    }

    /// The position of a cache key, if present.
    fn find_key(&self, cache_key: &str) -> (r: Option<usize>)
        ensures
            r matches Some(i) ==> i < self@.len() && self@[i as int].cache_key@ == cache_key@,
            r is None ==> forall|i: int|
                0 <= i < self@.len() ==> (#[trigger] self@[i].cache_key@) != cache_key@,
    {
        let n: usize = self.rows.len();
        let mut i: usize = 0;
        while i < n
            invariant
                n == self@.len(),
                0 <= i <= n,
                forall|j: int| 0 <= j < i ==> (#[trigger] self@[j].cache_key@) != cache_key@,
            decreases n - i,
        {
            if str_eq(self.rows[i].cache_key.as_str(), cache_key) {
                return Some(i);
            }
            i = i + 1;
        }
        None
    }

    /// Get a cached response at time `now`: a fresh entry comes back and
    /// counts a hit, its last access updated; an absent or expired entry
    /// counts a miss and reads as `None` (expired rows are left for the
    /// next sweep).
    pub fn get_at(&mut self, method: &str, url: &str, now: i64) -> (r: Result<
        Option<CachedResponse>,
        CacheError,
    >)
        requires
            old(self).wf(),
        ensures
            final(self).wf(),
            final(self).spec_max_size() == old(self).spec_max_size(),
            ({
                let key = spec_cache_key(method@, url@);
                if exists|i: int|
                    0 <= i < old(self)@.len() && (#[trigger] old(self)@[i].cache_key@) == key
                        && spec_fresh(old(self)@[i], now) {
                    exists|i: int|
                        {
                            &&& 0 <= i < old(self)@.len()
                            &&& (#[trigger] old(self)@[i].cache_key@) == key
                            &&& spec_fresh(old(self)@[i], now)
                            &&& r matches Ok(v) && v matches Some(e) && e == old(self)@[i]
                            &&& final(self)@ == old(self)@.update(
                                i,
                                CachedResponse { last_accessed_at: now, ..old(self)@[i] },
                            )
                            &&& final(self).spec_hits() == spec_inc_sat(old(self).spec_hits())
                            &&& final(self).spec_misses() == old(self).spec_misses()
                        }
                } else {
                    &&& r matches Ok(v) && v is None
                    &&& final(self)@ == old(self)@
                    &&& final(self).spec_hits() == old(self).spec_hits()
                    &&& final(self).spec_misses() == spec_inc_sat(old(self).spec_misses())
                }
            }),
            r is Ok,
    {
        let cache_key: String = HttpCache::generate_key(method, url);
        let found: Option<usize> = self.find_key(cache_key.as_str());
        match found {
            Some(i) if self.rows[i].expires_at > now => {
                let entry: CachedResponse = self.rows[i].duplicate();
                let row = &self.rows[i];
                let updated = CachedResponse {
                    cache_key: row.cache_key.clone(),
                    status_code: row.status_code,
                    headers_json: row.headers_json.clone(),
                    body: row.body.clone(),
                    cached_at: row.cached_at,
                    expires_at: row.expires_at,
                    etag: crate::crdt::opt_string_duplicate(&row.etag),
                    last_modified: crate::crdt::opt_string_duplicate(&row.last_modified),
                    body_size: row.body_size,
                    last_accessed_at: now,
                };
                proof {
                    assert forall|a: int, b: int|
                        0 <= a < b < self@.update(
                            i as int,
                            updated,
                        ).len() implies (#[trigger] self@.update(i as int, updated)[a].cache_key@)
                        != (#[trigger] self@.update(i as int, updated)[b].cache_key@) by {
                        assert(self@.update(i as int, updated)[a].cache_key@
                            == self@[a].cache_key@);
                        assert(self@.update(i as int, updated)[b].cache_key@
                            == self@[b].cache_key@);
                    }
                }
                self.rows.set(i, updated);
                if self.hit_count < u64::MAX {
                    self.hit_count = self.hit_count + 1;
                }
                Ok(Some(entry))
            },
            _ => {
                proof {
                    if found is None {
                    }
                }
                if self.miss_count < u64::MAX {
                    self.miss_count = self.miss_count + 1;
                }
                Ok(None)
            },
        }
    }

    /// Get a cached response against the platform clock: a returned entry
    /// is the stored one for the key and counts a hit, with only its last
    /// access touched; `None` leaves the rows alone and counts a miss, and
    /// is certain when no entry carries the key.
    pub fn get(&mut self, method: &str, url: &str) -> (r: Result<Option<CachedResponse>, CacheError>)
        requires
            old(self).wf(),
        ensures
            final(self).wf(),
            final(self).spec_max_size() == old(self).spec_max_size(),
            r is Ok,
            (forall|i: int|
                0 <= i < old(self)@.len() ==> (#[trigger] old(self)@[i].cache_key@)
                    != spec_cache_key(method@, url@)) ==> (r matches Ok(v) && v is None),
            r matches Ok(v) && v matches Some(e) ==> spec_hit_step(
                old(self)@,
                final(self)@,
                spec_cache_key(method@, url@),
                e,
            ) && final(self).spec_hits() == spec_inc_sat(old(self).spec_hits())
                && final(self).spec_misses() == old(self).spec_misses(),
            r matches Ok(v) && v is None ==> final(self)@ == old(self)@
                && final(self).spec_misses() == spec_inc_sat(old(self).spec_misses())
                && final(self).spec_hits() == old(self).spec_hits(),
    {
        let now: i64 = now_ms();
        let r = self.get_at(method, url, now);
        r
    }

    /// Store a response at time `now`.  Before inserting, if the new body
    /// would push the held bytes over the budget, expired entries are swept
    /// and then least-recently-accessed entries are evicted until it fits.
    /// The entry for this method and URL is then inserted or overwritten.
    pub fn put_at(
        &mut self,
        method: &str,
        url: &str,
        status_code: u16,
        headers_json: &str,
        body: &str,
        ttl_seconds: u64,
        etag: Option<&str>,
        last_modified: Option<&str>,
        now: i64,
    ) -> (r: Result<(), CacheError>)
        requires
            old(self).wf(),
        ensures
            final(self).wf(),
            final(self).spec_max_size() == old(self).spec_max_size(),
            final(self).spec_hits() == old(self).spec_hits(),
            final(self).spec_misses() == old(self).spec_misses(),
            ({
                let key = spec_cache_key(method@, url@);
                let e = final(self)@.last();
                &&& final(self)@.len() >= 1
                &&& e.cache_key@ == key
                &&& e.status_code == status_code
                &&& e.headers_json@ == headers_json@
                &&& e.body@ == body@
                &&& e.cached_at == now
                &&& e.last_accessed_at == now
                &&& e.expires_at == spec_expiry_at(now, ttl_seconds as int)
                &&& e.body_size == crate::vault_store::spec_byte_len(body@)
                &&& (forall|i: int|
                    0 <= i < final(self)@.len() - 1 ==> old(self)@.contains(
                        #[trigger] final(self)@[i],
                    ) && final(self)@[i].cache_key@ != key)
            }),
            spec_put_lru_ordered(
                old(self)@,
                final(self)@,
                spec_cache_key(method@, url@),
                now,
            ),
            crate::vault_store::spec_byte_len(body@) <= old(self).spec_max_size()
                ==> spec_total_size(final(self)@) <= old(self).spec_max_size(),
            r is Ok,
    {
        let cache_key: String = HttpCache::generate_key(method, url);
        let body_size: u64 = body.len() as u64;
        match self.find_key(cache_key.as_str()) {
            Some(i) => {
                proof {
                    lemma_cache_remove_unique(self@, i as int);
                }
                self.rows.remove(i);
                proof {
                    assert forall|x: int| 0 <= x < self@.len() implies old(self)@.contains(
                        #[trigger] self@[x],
                    ) && self@[x].cache_key@ != cache_key@ by {
                        let x0: int = if x < i {
                            x
                        } else {
                            x + 1
                        };
                        assert(self@[x] == old(self)@[x0]);
                        assert(old(self)@.contains(old(self)@[x0]));
                    }
                }
            },
            None => {
                proof {
                    assert forall|x: int| 0 <= x < self@.len() implies old(self)@.contains(
                        #[trigger] self@[x],
                    ) && self@[x].cache_key@ != cache_key@ by {
                        assert(old(self)@.contains(old(self)@[x]));
                    }
                }
            },
        }
        let ghost pre_evict = self@;
        self.evict_if_needed(body_size, now, Ghost(old(self)@), Ghost(cache_key@));
        let ghost post_evict = self@;
        let entry = CachedResponse {
            cache_key,
            status_code,
            headers_json: headers_json.to_owned(),
            body: body.to_owned(),
            cached_at: now,
            expires_at: match now.checked_add(if ttl_seconds > 0x7FFF_FFFF_FFFF { 0x7FFF_FFFF_FFFF_000 } else { (ttl_seconds as i64) * 1000 }) {
                Some(t) => t,
                None => i64::MAX,
            },
            etag: match etag {
                Some(e) => Some(e.to_owned()),
                None => None,
            },
            last_modified: match last_modified {
                Some(l) => Some(l.to_owned()),
                None => None,
            },
            body_size,
            last_accessed_at: now,
        };
        let ghost pre = self@;
        proof {
            assert forall|a: int, b: int| 0 <= a < b < pre.push(
                entry,
            ).len() implies (#[trigger] pre.push(entry)[a].cache_key@) != (#[trigger] pre.push(
                entry,
            )[b].cache_key@) by {
                if b < pre.len() {
                    assert(pre.push(entry)[a] == pre[a]);
                    assert(pre.push(entry)[b] == pre[b]);
                } else {
                    assert(pre.push(entry)[a] == pre[a]);
                    assert(pre.push(entry)[b] == entry);
                }
            }
            assert(spec_total_size(pre.push(entry)) == spec_total_size(pre) + entry.body_size) by {
                assert(pre.push(entry).drop_last() =~= pre);
            }
        }
        self.rows.push(entry);
        proof {
            assert(final(self)@.drop_last() =~= post_evict);
            assert forall|i: int, j: int|
                0 <= i < old(self)@.len() && spec_fresh(#[trigger] old(self)@[i], now) && old(
                    self,
                )@[i].cache_key@ != spec_cache_key(method@, url@) && !self@.contains(
                    old(self)@[i],
                ) && 0 <= j < self@.len() - 1 implies old(self)@[i].last_accessed_at <= (
            #[trigger] self@[j]).last_accessed_at by {
                assert(pre_evict.contains(old(self)@[i])) by {
                    if old(self)@.len() == pre_evict.len() {
                        assert(pre_evict[i] == old(self)@[i]);
                    } else {
                        let rm: int = choose|rm: int|
                            0 <= rm <= pre_evict.len() && pre_evict == old(self)@.remove(rm)
                                && old(self)@[rm].cache_key@ == cache_key@;
                        assert(i != rm);
                        let i2: int = if i < rm {
                            i
                        } else {
                            i - 1
                        };
                        assert(pre_evict[i2] == old(self)@[i]);
                    }
                }
                assert(!post_evict.contains(old(self)@[i])) by {
                    if post_evict.contains(old(self)@[i]) {
                        let q: int = choose|q: int|
                            0 <= q < post_evict.len() && post_evict[q] == old(self)@[i];
                        assert(self@[q] == old(self)@[i]);
                        assert(self@.contains(old(self)@[i]));
                    }
                }
                assert(self@[j] == post_evict[j]);
            }
        }
        Ok(())
    }

    /// Store a response against the platform clock: the new entry lands
    /// last, every other surviving row comes from the old rows and carries
    /// another key, the headers, timing and size fields follow the stored
    /// rule at the reading, the byte budget is kept when the body fits it,
    /// and whatever the clock read, eviction respected the access order at
    /// some reading.
    pub fn put(
        &mut self,
        method: &str,
        url: &str,
        status_code: u16,
        headers_json: &str,
        body: &str,
        ttl_seconds: u64,
        etag: Option<&str>,
        last_modified: Option<&str>,
    ) -> (r: Result<(), CacheError>)
        requires
            old(self).wf(),
        ensures
            final(self).wf(),
            final(self).spec_max_size() == old(self).spec_max_size(),
            final(self).spec_hits() == old(self).spec_hits(),
            final(self).spec_misses() == old(self).spec_misses(),
            ({
                let key = spec_cache_key(method@, url@);
                let e = final(self)@.last();
                &&& final(self)@.len() >= 1
                &&& e.cache_key@ == key
                &&& e.body@ == body@
                &&& e.status_code == status_code
                &&& (forall|i: int|
                    0 <= i < final(self)@.len() - 1 ==> old(self)@.contains(
                        #[trigger] final(self)@[i],
                    ) && final(self)@[i].cache_key@ != key)
            }),
            crate::vault_store::spec_byte_len(body@) <= old(self).spec_max_size()
                ==> spec_total_size(final(self)@) <= old(self).spec_max_size(),
            exists|t: i64| #[trigger] spec_put_lru_ordered(
                old(self)@,
                final(self)@,
                spec_cache_key(method@, url@),
                t,
            ),
            r is Ok,
    {
        let now: i64 = now_ms();
        let r = self.put_at(
            method,
            url,
            status_code,
            headers_json,
            body,
            ttl_seconds,
            etag,
            last_modified,
            now,
        );
        r
    }

    /// Sweep expired rows and then evict least-recently-accessed rows until
    /// the new body fits the budget.  Keeps only rows of the given prior
    /// state, never touching their keys.
    fn evict_if_needed(
        &mut self,
        new_entry_size: u64,
        now: i64,
        Ghost(orig): Ghost<Seq<CachedResponse>>,
        Ghost(key): Ghost<Seq<char>>,
    )
        requires
            old(self).wf(),
            forall|x: int|
                0 <= x < old(self)@.len() ==> orig.contains(#[trigger] old(self)@[x])
                    && old(self)@[x].cache_key@ != key,
        ensures
            final(self).wf(),
            final(self).spec_max_size() == old(self).spec_max_size(),
            final(self).spec_hits() == old(self).spec_hits(),
            final(self).spec_misses() == old(self).spec_misses(),
            forall|x: int|
                0 <= x < final(self)@.len() ==> orig.contains(#[trigger] final(self)@[x])
                    && final(self)@[x].cache_key@ != key,
            spec_lru_ordered(old(self)@, final(self)@, now),
            new_entry_size <= final(self).spec_max_size() ==> spec_total_size(final(self)@)
                + new_entry_size <= final(self).spec_max_size(),
    {
        let n0: usize = self.rows.len();
        let total: u128 = self.total_size();
        let ghost len0: int = n0 as int;
        proof {
            assert((total as int) + (new_entry_size as int) <= 0xFFFF_FFFF_FFFF_FFFF * (
            0xFFFF_FFFF_FFFF_FFFF + 1)) by (nonlinear_arith)
                requires
                    (total as int) <= len0 * 0xFFFF_FFFF_FFFF_FFFF,
                    len0 <= 0xFFFF_FFFF_FFFF_FFFF,
                    (new_entry_size as int) <= 0xFFFF_FFFF_FFFF_FFFF;
        }
        if total + (new_entry_size as u128) <= (self.max_size_bytes as u128) {
            proof {
                assert forall|x: int| 0 <= x < self@.len() implies self@.contains(
                    #[trigger] self@[x],
                ) by {}
            }
            return ;
        }
        let ghost mid = self@;
        let n: usize = self.rows.len();
        let mut kept: Vec<CachedResponse> = Vec::new();
        let mut i: usize = 0;
        while i < n
            invariant
                n == mid.len(),
                self@ == mid,
                self.wf(),
                0 <= i <= n,
                kept@ =~= mid.take(i as int).filter(
                    |e: CachedResponse| e.expires_at > now,
                ),
                kept@.len() <= i,
            decreases n - i,
        {
            proof {
                reveal(Seq::filter);
                assert(mid.take(i + 1).drop_last() =~= mid.take(i as int));
                assert(mid.take(i + 1).last() == mid[i as int]);
            }
            if self.rows[i].expires_at > now {
                let e: CachedResponse = self.rows[i].duplicate();
                kept.push(e);
            }
            i = i + 1;
        }
        proof {
            assert(mid.take(n as int) =~= mid);
            lemma_cache_filter_unique(mid, |e: CachedResponse| e.expires_at > now);
            assert forall|x: int| 0 <= x < kept@.len() implies orig.contains(
                #[trigger] kept@[x],
            ) && kept@[x].cache_key@ != key by {
                mid.lemma_filter_contains_rev(
                    |e: CachedResponse| e.expires_at > now,
                    kept@[x],
                );
                let j: int = choose|j: int| 0 <= j < mid.len() && mid[j] == kept@[x];
            }
        }
        proof {
            assert forall|x: int|
                0 <= x < mid.len() && spec_fresh(#[trigger] mid[x], now) implies kept@.contains(
                mid[x],
            ) by {
                mid.lemma_filter_contains(|e: CachedResponse| e.expires_at > now, x);
            }
        }
        self.rows = kept;
        let mut total2: u128 = self.total_size();
        let n1: usize = self.rows.len();
        let ghost len1: int = n1 as int;
        proof {
            assert((total2 as int) + (new_entry_size as int) <= 0xFFFF_FFFF_FFFF_FFFF * (
            0xFFFF_FFFF_FFFF_FFFF + 1)) by (nonlinear_arith)
                requires
                    (total2 as int) <= len1 * 0xFFFF_FFFF_FFFF_FFFF,
                    len1 <= 0xFFFF_FFFF_FFFF_FFFF,
                    (new_entry_size as int) <= 0xFFFF_FFFF_FFFF_FFFF;
        }
        let ghost t0: u128 = total2;
        while self.rows.len() > 0 && total2 + (new_entry_size as u128) > (
        self.max_size_bytes as u128)
            invariant
                self.wf(),
                total2 <= t0,
                (t0 as int) + (new_entry_size as int) <= 0xFFFF_FFFF_FFFF_FFFF * (
                0xFFFF_FFFF_FFFF_FFFF + 1),
                total2 == spec_total_size(self@),
                forall|x: int|
                    0 <= x < self@.len() ==> orig.contains(#[trigger] self@[x]) && self@[
                        x
                    ].cache_key@ != key,
                self.spec_max_size() == old(self).spec_max_size(),
                self.spec_hits() == old(self).spec_hits(),
                self.spec_misses() == old(self).spec_misses(),
                spec_lru_ordered(old(self)@, self@, now),
            decreases self@.len(),
        {
            let m: usize = self.rows.len();
            let mut lru: usize = 0;
            let mut j: usize = 1;
            while j < m
                invariant
                    m == self@.len(),
                    0 < m,
                    0 <= lru < j <= m || (j <= 1 && lru == 0),
                    lru < m,
                    forall|y: int|
                        0 <= y < j ==> (#[trigger] self@[y]).last_accessed_at >= self@[
                            lru as int
                        ].last_accessed_at,
                decreases m - j,
            {
                if self.rows[j].last_accessed_at < self.rows[lru].last_accessed_at {
                    lru = j;
                }
                j = j + 1;
            }
            let ghost pre = self@;
            proof {
                lemma_cache_remove_unique(pre, lru as int);
                lemma_total_size_remove(pre, lru as int);
                lemma_total_size_nonneg(pre.remove(lru as int));
            }
            let removed: CachedResponse = self.rows.remove(lru);
            total2 = total2 - (removed.body_size as u128);
            proof {
                assert forall|x: int| 0 <= x < self@.len() implies orig.contains(
                    #[trigger] self@[x],
                ) && self@[x].cache_key@ != key by {
                    let x0: int = if x < lru {
                        x
                    } else {
                        x + 1
                    };
                    assert(self@[x] == pre[x0]);
                }
                assert forall|i: int, j: int|
                    0 <= i < old(self)@.len() && spec_fresh(#[trigger] old(self)@[i], now)
                        && !self@.contains(old(self)@[i]) && 0 <= j
                        < self@.len() implies old(self)@[i].last_accessed_at <= (
                #[trigger] self@[j]).last_accessed_at by {
                    let j0: int = if j < lru {
                        j
                    } else {
                        j + 1
                    };
                    assert(self@[j] == pre[j0]);
                    if pre.contains(old(self)@[i]) {
                        let k: int = choose|k: int|
                            0 <= k < pre.len() && pre[k] == old(self)@[i];
                        if k != lru {
                            let k2: int = if k < lru {
                                k
                            } else {
                                k - 1
                            };
                            assert(self@[k2] == pre[k]);
                            assert(self@.contains(old(self)@[i]));
                        }
                        assert(old(self)@[i] == pre[lru as int]);
                        assert(pre[j0].last_accessed_at >= pre[lru as int].last_accessed_at);
                    }
                }
            }
        }
        proof {
            if self@.len() == 0 {
                assert(spec_total_size(self@) == 0);
            }
        }
    }

    /// The bytes the cached bodies account for.
    fn total_size(&self) -> (r: u128)
        ensures
            r == spec_total_size(self@),
            r as int <= self@.len() * 0xFFFF_FFFF_FFFF_FFFF,
    {
        let n: usize = self.rows.len();
        let mut acc: u128 = 0;
        let mut i: usize = 0;
        while i < n
            invariant
                n == self@.len(),
                0 <= i <= n,
                acc == spec_total_size(self@.take(i as int)),
                acc <= i * 0xFFFF_FFFF_FFFF_FFFFu128,
            decreases n - i,
        {
            proof {
                assert(self@.take(i + 1).drop_last() =~= self@.take(i as int));
                assert(self@.take(i + 1).last() == self@[i as int]);
                assert((i as int + 1) * 0xFFFF_FFFF_FFFF_FFFF == i as int * 0xFFFF_FFFF_FFFF_FFFF
                    + 0xFFFF_FFFF_FFFF_FFFF) by (nonlinear_arith);
            }
            acc = acc + (self.rows[i].body_size as u128);
            i = i + 1;
        }
        proof {
            assert(self@.take(n as int) =~= self@);
        }
        acc
    }

    /// Invalidate a specific cache entry; says whether one was removed.
    pub fn invalidate(&mut self, method: &str, url: &str) -> (r: Result<bool, CacheError>)
        requires
            old(self).wf(),
        ensures
            final(self).wf(),
            final(self).spec_max_size() == old(self).spec_max_size(),
            r matches Ok(b) ==> (b <==> exists|i: int|
                0 <= i < old(self)@.len() && (#[trigger] old(self)@[i].cache_key@)
                    == spec_cache_key(method@, url@)),
            forall|i: int|
                0 <= i < final(self)@.len() ==> (#[trigger] final(self)@[i].cache_key@)
                    != spec_cache_key(method@, url@),
            r is Ok,
    {
        let cache_key: String = HttpCache::generate_key(method, url);
        match self.find_key(cache_key.as_str()) {
            Some(i) => {
                let ghost pre = self@;
                proof {
                    lemma_cache_remove_unique(pre, i as int);
                }
                self.rows.remove(i);
                proof {
                    assert forall|x: int| 0 <= x < self@.len() implies (
                    #[trigger] self@[x].cache_key@) != spec_cache_key(method@, url@) by {
                        let x0: int = if x < i {
                            x
                        } else {
                            x + 1
                        };
                        assert(self@[x] == pre[x0]);
                    }
                }
                Ok(true)
            },
            None => Ok(false),
        }
    }

    /// Clear expired entries at time `now`; says how many went.
    pub fn cleanup_expired_at(&mut self, now: i64) -> (r: Result<u64, CacheError>)
        requires
            old(self).wf(),
        ensures
            final(self).wf(),
            final(self).spec_max_size() == old(self).spec_max_size(),
            final(self)@ =~= spec_fresh_swept(old(self)@, now),
            r == Result::<u64, CacheError>::Ok((old(self)@.len() - final(self)@.len()) as u64),
    {
        let n: usize = self.rows.len();
        let mut kept: Vec<CachedResponse> = Vec::new();
        let mut i: usize = 0;
        while i < n
            invariant
                n == old(self)@.len(),
                self@ == old(self)@,
                self.wf(),
                0 <= i <= n,
                kept@ =~= spec_fresh_swept(old(self)@.take(i as int), now),
                kept@.len() <= i,
            decreases n - i,
        {
            proof {
                assert(old(self)@.take(i + 1).drop_last() =~= old(self)@.take(i as int));
                assert(old(self)@.take(i + 1).last() == old(self)@[i as int]);
            }
            if self.rows[i].expires_at > now {
                let e: CachedResponse = self.rows[i].duplicate();
                kept.push(e);
            }
            i = i + 1;
        }
        proof {
            assert(old(self)@.take(n as int) =~= old(self)@);
            lemma_fresh_swept_unique(old(self)@, now);
            lemma_fresh_swept_from(old(self)@, now);
        }
        let removed: usize = n - kept.len();
        self.rows = kept;
        Ok(removed as u64)
    }

    /// Clear expired entries against the platform clock: whatever the
    /// clock read, the surviving rows are an expiry sweep of the old rows
    /// at some reading.
    pub fn cleanup_expired(&mut self) -> (r: Result<u64, CacheError>)
        requires
            old(self).wf(),
        ensures
            final(self).wf(),
            final(self).spec_max_size() == old(self).spec_max_size(),
            exists|t: i64| final(self)@ =~= #[trigger] spec_fresh_swept(old(self)@, t),
            r is Ok,
    {
        let now: i64 = now_ms();
        self.cleanup_expired_at(now)
    }

    /// Clear the entire cache.  The hit and miss counters are kept.
    pub fn clear(&mut self) -> (r: Result<(), CacheError>)
        requires
            old(self).wf(),
        ensures
            final(self).wf(),
            final(self).spec_max_size() == old(self).spec_max_size(),
            final(self)@ =~= Seq::<CachedResponse>::empty(),
            final(self).spec_hits() == old(self).spec_hits(),
            final(self).spec_misses() == old(self).spec_misses(),
            r is Ok,
    {
        self.rows.clear();
        Ok(())
    }

    /// Cache statistics: entry and byte counts, the cumulative hit and miss
    /// counters, and the hit rate in thousandths, which is exactly
    /// `hits * 1000 / (hits + misses)` whenever anything was asked, and 0
    /// before.
    pub fn stats(&self) -> (r: Result<CacheStats, CacheError>)
        requires
            self.wf(),
        ensures
            r matches Ok(st) ==> {
                &&& st.total_entries == self@.len()
                &&& (spec_total_size(self@) <= u64::MAX ==> st.total_size_bytes
                    == spec_total_size(self@))
                &&& st.hit_count == self.spec_hits()
                &&& st.miss_count == self.spec_misses()
                &&& st.hit_rate_permille == (if self.spec_hits() + self.spec_misses() > 0 {
                    self.spec_hits() * 1000 / (self.spec_hits() + self.spec_misses())
                } else {
                    0int
                })
            },
            r is Ok,
    {
        let exact_total: u128 = self.total_size();
        let total_size_bytes: u64 = if exact_total > u64::MAX as u128 {
            u64::MAX
        } else {
            exact_total as u64
        };
        let hits: u64 = self.hit_count;
        let misses: u64 = self.miss_count;
        let requests: u128 = (hits as u128) + (misses as u128);
        let hit_rate_permille: u64 = if requests > 0 {
            (((hits as u128) * 1000) / requests) as u64
        } else {
            0
        };
        proof {
            if requests > 0 {
                assert((hits as int) * 1000 / (hits as int + misses as int) <= 1000)
                    by (nonlinear_arith)
                    requires
                        hits >= 0,
                        misses >= 0,
                        hits as int + misses as int > 0;
            }
        }
        Ok(
            CacheStats {
                total_entries: self.rows.len() as u64,
                total_size_bytes,
                hit_count: hits,
                miss_count: misses,
                hit_rate_permille,
            },
        )
    }
}

/// The absolute expiry for a TTL in seconds, saturated at the far end of
/// time and capped against overflow.
pub open spec fn spec_expiry_at(now: i64, ttl_seconds: int) -> i64 {
    let add = if ttl_seconds > 0x7FFF_FFFF_FFFF {
        0x7FFF_FFFF_FFFF_000
    } else {
        ttl_seconds * 1000
    };
    if now + add <= i64::MAX {
        (now + add) as i64
    } else {
        i64::MAX
    }
}

/// The total never goes negative.
proof fn lemma_total_size_nonneg(s: Seq<CachedResponse>)
    ensures
        spec_total_size(s) >= 0,
    decreases s.len(),
{
    if s.len() > 0 {
        lemma_total_size_nonneg(s.drop_last());
    }
}

/// Removing a row subtracts its bytes from the total.
proof fn lemma_total_size_remove(s: Seq<CachedResponse>, i: int)
    requires
        0 <= i < s.len(),
    ensures
        spec_total_size(s.remove(i)) == spec_total_size(s) - s[i].body_size,
    decreases s.len(),
{
    if i == s.len() - 1 {
        assert(s.remove(i) =~= s.drop_last());
    } else {
        lemma_total_size_remove(s.drop_last(), i);
        assert(s.remove(i).drop_last() =~= s.drop_last().remove(i));
        assert(s.remove(i).last() == s.last());
    }
}

} // verus!
