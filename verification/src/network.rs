//! The network engine facade: one handle composing the request queue, the
//! response cache, the bandwidth estimator and the connectivity model, with
//! subsystems that can be switched off by configuration.

use vstd::prelude::*;

use crate::cache::spec_cache_key;
use crate::cache::spec_fresh_swept;
use crate::cache::spec_hit_step;
use crate::cache::spec_inc_sat;
use crate::cache::spec_total_size;
use crate::cache::CacheStats;
use crate::cache::CachedResponse;
use crate::cache::HttpCache;
use crate::compression::compress_string;
use crate::compression::should_compress;
use crate::compression::spec_gzip_of;
use crate::crypto::spec_b64_of;
use crate::connectivity::spec_estimate_kbps;
use crate::connectivity::BandwidthEstimator;
use crate::connectivity::ConnectionType;
use crate::connectivity::ImageQuality;
use crate::connectivity::NetworkStatus;
use crate::queue::spec_cutoff;
use crate::queue::spec_dequeued;
use crate::queue::spec_failed;
use crate::queue::spec_has_id;
use crate::queue::spec_old_swept;
use crate::queue::spec_removed_id;
use crate::queue::spec_tag_swept;
use crate::queue::Priority;
use crate::queue::QueuedRequest;
use crate::queue::RequestQueue;
use crate::text::ascii_lower;
use crate::text::spec_ascii_lower;
use crate::text::str_eq;

verus! {

use vstd::string::StringExecFns;
use vstd::utf8::encode_utf8;

/// Errors of the network engine.
#[derive(Debug, Clone)]
pub enum NetworkError {
    /// A queue failure.
    QueueError(String),
    /// A cache failure.
    CacheError(String),
    /// A compression failure.
    CompressionError(String),
    /// The engine was not initialized.
    NotInitialized,
    /// A disabled subsystem was used, or the configuration is unusable.
    InvalidConfig(String),
}

/// Configuration for the network engine.
pub struct NetworkConfig {
    /// App identifier, used in naming the durable stores.
    pub app_id: String,
    /// Directory for the durable stores.
    pub db_dir: String,
    /// Maximum cache size in bytes.
    pub max_cache_bytes: u64,
    /// Whether to enable offline request queuing.
    pub enable_queue: bool,
    /// Whether to enable response caching.
    pub enable_cache: bool,
    /// Whether to auto-compress large request bodies.
    pub auto_compress: bool,
}

/// The connection type a lower-cased platform name denotes; anything
/// unknown reads as `Unknown`.
pub open spec fn spec_conn_type_of(s: Seq<char>) -> ConnectionType {
    if s == "offline"@ || s == "none"@ {
        ConnectionType::Offline
    } else if s == "2g"@ || s == "cellular2g"@ {
        ConnectionType::Cellular2G
    } else if s == "3g"@ || s == "cellular3g"@ {
        ConnectionType::Cellular3G
    } else if s == "4g"@ || s == "lte"@ || s == "cellular4g"@ {
        ConnectionType::Cellular4G
    } else if s == "5g"@ || s == "cellular5g"@ {
        ConnectionType::Cellular5G
    } else if s == "wifi"@ {
        ConnectionType::WiFi
    } else if s == "ethernet"@ || s == "wired"@ {
        ConnectionType::Ethernet
    } else {
        ConnectionType::Unknown
    }
}

/// Parse a platform connection-type name, ASCII case-insensitively.
pub fn parse_connection_type(name: &str) -> (r: ConnectionType)
    ensures
        r == spec_conn_type_of(spec_ascii_lower(name@)),
{
    let lower: String = ascii_lower(name);
    let l: &str = lower.as_str();
    if str_eq(l, "offline") || str_eq(l, "none") {
        ConnectionType::Offline
    } else if str_eq(l, "2g") || str_eq(l, "cellular2g") {
        ConnectionType::Cellular2G
    } else if str_eq(l, "3g") || str_eq(l, "cellular3g") {
        ConnectionType::Cellular3G
    } else if str_eq(l, "4g") || str_eq(l, "lte") || str_eq(l, "cellular4g") {
        ConnectionType::Cellular4G
    } else if str_eq(l, "5g") || str_eq(l, "cellular5g") {
        ConnectionType::Cellular5G
    } else if str_eq(l, "wifi") {
        ConnectionType::WiFi
    } else if str_eq(l, "ethernet") || str_eq(l, "wired") {
        ConnectionType::Ethernet
    } else {
        ConnectionType::Unknown
    }
}

/// The priority a lower-cased name denotes; anything unknown reads as
/// `Normal`.
pub open spec fn spec_priority_of(s: Seq<char>) -> Priority {
    if s == "low"@ {
        Priority::Low
    } else if s == "high"@ {
        Priority::High
    } else if s == "critical"@ {
        Priority::Critical
    } else {
        Priority::Normal
    }
}

/// Parse a priority name, ASCII case-insensitively.
pub fn parse_priority(name: &str) -> (r: Priority)
    ensures
        r == spec_priority_of(spec_ascii_lower(name@)),
{
    let lower: String = ascii_lower(name);
    let l: &str = lower.as_str();
    if str_eq(l, "low") {
        Priority::Low
    } else if str_eq(l, "high") {
        Priority::High
    } else if str_eq(l, "critical") {
        Priority::Critical
    } else {
        Priority::Normal
    }
}

/// The body an enqueue stores: under auto-compression, a body of at least
/// 1 KiB that gzips to under 80% of its size is replaced by the base64 of
/// its gzip form; any other body is kept as given.
pub open spec fn spec_enqueued_body(b: Seq<char>, auto: bool, compress: bool) -> Seq<char> {
    if auto && compress && encode_utf8(b).len() >= 1024 && spec_gzip_of(encode_utf8(b)).len()
        < encode_utf8(b).len() * 80 / 100 {
        spec_b64_of(spec_gzip_of(encode_utf8(b)))
    } else {
        b
    }
}

/// The network engine exposed to platform code.
pub struct RajeevNetwork {
    queue: Option<RequestQueue>,
    cache: Option<HttpCache>,
    bandwidth: BandwidthEstimator,
    status: NetworkStatus,
    auto_compress: bool,
}

impl RajeevNetwork {
    /// The waiting requests, when the queue is enabled.
    pub closed spec fn spec_queue(&self) -> Option<Seq<QueuedRequest>> {
        match self.queue {
            Some(ref q) => Some(q@),
            None => None,
        }
    }

    /// The cached responses, when the cache is enabled.
    pub closed spec fn spec_cache(&self) -> Option<Seq<CachedResponse>> {
        match self.cache {
            Some(ref c) => Some(c@),
            None => None,
        }
    }

    /// The engine's current view of the network.
    pub closed spec fn spec_status(&self) -> NetworkStatus {
        self.status
    }

    /// Whether large request bodies are auto-compressed on enqueue.
    pub closed spec fn spec_auto_compress(&self) -> bool {
        self.auto_compress
    }

    /// The bandwidth samples on record, oldest first.
    pub closed spec fn spec_samples(&self) -> Seq<(u64, u64)> {
        self.bandwidth@
    }

    /// The estimator's sample-window bound.
    pub closed spec fn spec_sample_cap(&self) -> usize {
        self.bandwidth.spec_max_samples()
    }

    /// The cache's hit count, when the cache is enabled.
    pub closed spec fn spec_cache_hits(&self) -> Option<u64> {
        match self.cache {
            Some(ref c) => Some(c.spec_hits()),
            None => None,
        }
    }

    /// The cache's miss count, when the cache is enabled.
    pub closed spec fn spec_cache_misses(&self) -> Option<u64> {
        match self.cache {
            Some(ref c) => Some(c.spec_misses()),
            None => None,
        }
    }

    /// Well-formed: the enabled parts are.
    pub closed spec fn wf(&self) -> bool {
        &&& (self.queue matches Some(q) ==> q.wf())
        &&& (self.cache matches Some(c) ==> c.wf())
        &&& self.bandwidth.wf()
    }

    /// Create a network engine: the queue and cache are opened only when
    /// enabled, the estimator keeps 50 samples, and the status starts as
    /// an unknown link.
    pub fn new(config: NetworkConfig) -> (r: Result<RajeevNetwork, NetworkError>)
        ensures
            r matches Ok(n) ==> {
                &&& n.wf()
                &&& (n.spec_queue() is Some) == config.enable_queue
                &&& (n.spec_cache() is Some) == config.enable_cache
                &&& (config.enable_queue ==> n.spec_queue() == Some(
                    Seq::<QueuedRequest>::empty(),
                ))
                &&& (config.enable_cache ==> n.spec_cache() == Some(
                    Seq::<CachedResponse>::empty(),
                ))
                &&& (config.enable_cache ==> n.spec_cache_hits() == Some(0u64)
                    && n.spec_cache_misses() == Some(0u64))
                &&& n.spec_samples() =~= Seq::<(u64, u64)>::empty()
                &&& n.spec_status() == NetworkStatus::spec_from_connection_type(
                    ConnectionType::Unknown,
                )
            },
    {
        let queue: Option<RequestQueue> = if config.enable_queue {
            let path: String = config.db_dir.clone().concat("/").concat(
                config.app_id.as_str(),
            ).concat(".network.queue.db");
            match RequestQueue::new(path.as_str()) {
                Ok(q) => Some(q),
                Err(_) => {
                    return Err(NetworkError::QueueError("could not open the queue".to_owned()));
                },
            }
        } else {
            None
        };
        let cache: Option<HttpCache> = if config.enable_cache {
            let path: String = config.db_dir.clone().concat("/").concat(
                config.app_id.as_str(),
            ).concat(".network.cache.db");
            match HttpCache::new(path.as_str(), config.max_cache_bytes) {
                Ok(c) => Some(c),
                Err(_) => {
                    return Err(NetworkError::CacheError("could not open the cache".to_owned()));
                },
            }
        } else {
            None
        };
        Ok(
            RajeevNetwork {
                queue,
                cache,
                bandwidth: BandwidthEstimator::new(50),
                status: NetworkStatus::from_connection_type(ConnectionType::Unknown),
                auto_compress: config.auto_compress,
            },
        )
    }

    /// Update the network status from the platform: the type name is
    /// parsed, the defaults for that type are taken, and measured downlink
    /// and round-trip values override them when present.
    pub fn update_status(
        &mut self,
        connection_type: &str,
        downlink_kbps: u32,
        rtt_ms: u32,
        save_data: bool,
    )
        requires
            old(self).wf(),
        ensures
            final(self).wf(),
            final(self).spec_queue() == old(self).spec_queue(),
            final(self).spec_cache() == old(self).spec_cache(),
            ({
                let base = NetworkStatus::spec_from_connection_type(
                    spec_conn_type_of(spec_ascii_lower(connection_type@)),
                );
                final(self).spec_status() == NetworkStatus {
                    downlink_kbps: if downlink_kbps > 0 {
                        downlink_kbps
                    } else {
                        base.downlink_kbps
                    },
                    rtt_ms: if rtt_ms > 0 {
                        rtt_ms
                    } else {
                        base.rtt_ms
                    },
                    save_data,
                    ..base
                }
            }),
    {
        let conn_type: ConnectionType = parse_connection_type(connection_type);
        let mut status: NetworkStatus = NetworkStatus::from_connection_type(conn_type);
        if downlink_kbps > 0 {
            status.downlink_kbps = downlink_kbps;
        }
        if rtt_ms > 0 {
            status.rtt_ms = rtt_ms;
        }
        status.save_data = save_data;
        self.status = status;
    }

    /// Get the current network status.
    pub fn get_status(&self) -> (r: NetworkStatus)
        ensures
            r == self.spec_status(),
    {
        self.status
    }

    /// Get the suggested timeout in milliseconds for the current network.
    pub fn get_suggested_timeout_ms(&self) -> (r: u64)
        ensures
            r == NetworkStatus::spec_suggested_timeout_ms(self.spec_status().quality_score),
    {
        self.status.suggested_timeout_ms()
    }

    /// Get the suggested image quality for the current network.
    pub fn get_suggested_image_quality(&self) -> (r: ImageQuality)
        ensures
            r == self.spec_status().spec_suggested_image_quality(),
    {
        self.status.suggested_image_quality()
    }

    /// Record a completed transfer for bandwidth estimation: a sample with
    /// a zero duration is ignored, any other is appended, evicting the
    /// oldest sample when the window is full.
    pub fn record_transfer(&mut self, bytes: u64, duration_ms: u64)
        requires
            old(self).wf(),
        ensures
            final(self).wf(),
            final(self).spec_queue() == old(self).spec_queue(),
            final(self).spec_cache() == old(self).spec_cache(),
            final(self).spec_status() == old(self).spec_status(),
            final(self).spec_sample_cap() == old(self).spec_sample_cap(),
            duration_ms == 0 || old(self).spec_sample_cap() == 0 ==> final(self).spec_samples()
                =~= old(self).spec_samples(),
            duration_ms > 0 && old(self).spec_samples().len() < old(self).spec_sample_cap()
                ==> final(self).spec_samples() =~= old(self).spec_samples().push(
                (bytes, duration_ms),
            ),
            duration_ms > 0 && old(self).spec_sample_cap() > 0 && old(self).spec_samples().len()
                >= old(self).spec_sample_cap() ==> final(self).spec_samples() =~= old(
                self,
            ).spec_samples().drop_first().push((bytes, duration_ms)),
    {
        self.bandwidth.record_transfer(bytes, duration_ms);
    }

    /// Get the estimated bandwidth in Kbps: the weighted moving average of
    /// the recorded samples, recent ones weighing more.
    pub fn get_estimated_bandwidth_kbps(&self) -> (r: u32)
        requires
            self.wf(),
        ensures
            r == spec_estimate_kbps(self.spec_samples()),
    {
        self.bandwidth.estimate_kbps()
    }

    /// Queue a request for later sending.  When auto-compression is on and
    /// the caller allows it, a body that compresses well is replaced by its
    /// base64-wrapped gzip form.
    pub fn enqueue_request(
        &mut self,
        method: String,
        url: String,
        headers_json: String,
        body: Option<String>,
        priority: String,
        compress: bool,
        tag: Option<String>,
    ) -> (r: Result<String, NetworkError>)
        requires
            old(self).wf(),
        ensures
            final(self).wf(),
            final(self).spec_cache() == old(self).spec_cache(),
            final(self).spec_status() == old(self).spec_status(),
            (final(self).spec_queue() is Some) == (old(self).spec_queue() is Some),
            old(self).spec_queue() is None ==> (r matches Err(e) && e is InvalidConfig)
                && *final(self) == *old(self),
            old(self).spec_queue() is Some ==> r is Ok,
            r matches Ok(id) ==> (final(self).spec_queue() matches Some(rows) && ({
                let q = rows.last();
                &&& rows =~= old(self).spec_queue().unwrap().push(q)
                &&& q.id@ == id@
                &&& q.method@ == method@
                &&& q.url@ == url@
                &&& q.headers_json@ == headers_json@
                &&& q.priority == spec_priority_of(spec_ascii_lower(priority@)).spec_as_i32()
                &&& q.retry_count == 0
                &&& q.compress == compress
                &&& (match (q.body, body) {
                    (Some(nb), Some(ob)) => nb@ == spec_enqueued_body(
                        ob@,
                        old(self).spec_auto_compress(),
                        compress,
                    ),
                    (None, None) => true,
                    _ => false,
                })
                &&& (match (q.tag, tag) {
                    (Some(nt), Some(ot)) => nt@ == ot@,
                    (None, None) => true,
                    _ => false,
                })
            })),
    {
        if self.queue.is_none() {
            return Err(NetworkError::InvalidConfig("Queue not enabled".to_owned()));
        }
        let pri: Priority = parse_priority(priority.as_str());
        let auto: bool = self.auto_compress;
        let final_body: Option<String> = if auto && compress {
            match body {
                Some(ref b) => {
                    if should_compress(b.as_str().as_bytes()) {
                        match compress_string(b.as_str()) {
                            Ok(c) => Some(c),
                            Err(_) => {
                                return Err(
                                    NetworkError::CompressionError(
                                        "compression failed".to_owned(),
                                    ),
                                );
                            },
                        }
                    } else {
                        body
                    }
                },
                None => None,
            }
        } else {
            body
        };
        match self.queue {
            Some(ref mut q) => {
                let id: Result<String, crate::queue::QueueError> = q.enqueue(
                    method.as_str(),
                    url.as_str(),
                    headers_json.as_str(),
                    match final_body {
                        Some(ref b) => Some(b.as_str()),
                        None => None,
                    },
                    pri,
                    compress,
                    match tag {
                        Some(ref t) => Some(t.as_str()),
                        None => None,
                    },
                );
                match id {
                    Ok(id) => Ok(id),
                    Err(_) => Err(NetworkError::QueueError("could not enqueue".to_owned())),
                }
            },
            None => Err(NetworkError::InvalidConfig("Queue not enabled".to_owned())),
        }
    }

    /// Get the next request to send, given the current network quality: a
    /// returned request is a waiting one whose priority gate the current
    /// quality passes.
    pub fn dequeue_request(&self) -> (r: Result<Option<QueuedRequest>, NetworkError>)
        requires
            self.wf(),
        ensures
            self.spec_queue() is None ==> (r matches Err(e) && e is InvalidConfig),
            self.spec_queue() is Some ==> r is Ok,
            r matches Ok(Some(req)) ==> spec_dequeued(
                self.spec_queue().unwrap(),
                req,
                self.spec_status().quality_score,
            ),
    {
        match self.queue {
            Some(ref q) => {
                let res = q.dequeue(self.status.quality_score);
                proof {
                    assert(self.spec_queue() == Some(q@));
                    if let Ok(Some(ref req)) = res {
                        assert(spec_dequeued(
                            self.spec_queue().unwrap(),
                            *req,
                            self.spec_status().quality_score,
                        ));
                    }
                }
                match res {
                    Ok(req) => Ok(req),
                    Err(_) => Err(NetworkError::QueueError("could not read the queue".to_owned())),
                }
            },
            None => Err(NetworkError::InvalidConfig("Queue not enabled".to_owned())),
        }
    }

    /// Mark a queued request as completed: its row is removed; says
    /// whether one existed.
    pub fn complete_request(&mut self, request_id: String) -> (r: Result<bool, NetworkError>)
        requires
            old(self).wf(),
        ensures
            final(self).wf(),
            final(self).spec_cache() == old(self).spec_cache(),
            final(self).spec_status() == old(self).spec_status(),
            (final(self).spec_queue() is Some) == (old(self).spec_queue() is Some),
            old(self).spec_queue() is None ==> (r matches Err(e) && e is InvalidConfig)
                && *final(self) == *old(self),
            old(self).spec_queue() is Some ==> r is Ok,
            r matches Ok(b) ==> (b <==> spec_has_id(
                old(self).spec_queue().unwrap(),
                request_id@,
            )),
            r matches Ok(true) ==> spec_removed_id(
                old(self).spec_queue().unwrap(),
                final(self).spec_queue().unwrap(),
                request_id@,
            ),
            r matches Ok(false) ==> final(self).spec_queue() == old(self).spec_queue(),
    {
        match self.queue {
            Some(ref mut q) => match q.complete(request_id.as_str()) {
                Ok(b) => Ok(b),
                Err(_) => Err(NetworkError::QueueError("could not complete".to_owned())),
            },
            None => Err(NetworkError::InvalidConfig("Queue not enabled".to_owned())),
        }
    }

    /// Mark a queued request as failed; says whether it will be retried.
    /// A row out of retries is removed; one with budget left is kept with
    /// its retry count bumped and its next attempt pushed back.
    pub fn fail_request(&mut self, request_id: String) -> (r: Result<bool, NetworkError>)
        requires
            old(self).wf(),
        ensures
            final(self).wf(),
            final(self).spec_cache() == old(self).spec_cache(),
            final(self).spec_status() == old(self).spec_status(),
            (final(self).spec_queue() is Some) == (old(self).spec_queue() is Some),
            old(self).spec_queue() is None ==> (r matches Err(e) && e is InvalidConfig)
                && *final(self) == *old(self),
            old(self).spec_queue() is Some && r is Err ==> (r matches Err(e) && e is QueueError)
                && final(self).spec_queue() == old(self).spec_queue() && !spec_has_id(
                old(self).spec_queue().unwrap(),
                request_id@,
            ),
            r matches Ok(b) ==> spec_failed(
                old(self).spec_queue().unwrap(),
                final(self).spec_queue().unwrap(),
                request_id@,
                b,
            ),
    {
        match self.queue {
            Some(ref mut q) => match q.fail(request_id.as_str()) {
                Ok(b) => Ok(b),
                Err(_) => Err(NetworkError::QueueError("request not found".to_owned())),
            },
            None => Err(NetworkError::InvalidConfig("Queue not enabled".to_owned())),
        }
    }

    /// Cancel a specific request: its row is removed; says whether one
    /// existed.
    pub fn cancel_request(&mut self, request_id: String) -> (r: Result<bool, NetworkError>)
        requires
            old(self).wf(),
        ensures
            final(self).wf(),
            final(self).spec_cache() == old(self).spec_cache(),
            final(self).spec_status() == old(self).spec_status(),
            (final(self).spec_queue() is Some) == (old(self).spec_queue() is Some),
            old(self).spec_queue() is None ==> (r matches Err(e) && e is InvalidConfig)
                && *final(self) == *old(self),
            old(self).spec_queue() is Some ==> r is Ok,
            r matches Ok(b) ==> (b <==> spec_has_id(
                old(self).spec_queue().unwrap(),
                request_id@,
            )),
            r matches Ok(true) ==> spec_removed_id(
                old(self).spec_queue().unwrap(),
                final(self).spec_queue().unwrap(),
                request_id@,
            ),
            r matches Ok(false) ==> final(self).spec_queue() == old(self).spec_queue(),
    {
        match self.queue {
            Some(ref mut q) => match q.cancel(request_id.as_str()) {
                Ok(b) => Ok(b),
                Err(_) => Err(NetworkError::QueueError("could not cancel".to_owned())),
            },
            None => Err(NetworkError::InvalidConfig("Queue not enabled".to_owned())),
        }
    }

    /// Cancel all requests with a tag; says how many went.
    pub fn cancel_by_tag(&mut self, tag: String) -> (r: Result<u64, NetworkError>)
        requires
            old(self).wf(),
        ensures
            final(self).wf(),
            final(self).spec_cache() == old(self).spec_cache(),
            final(self).spec_status() == old(self).spec_status(),
            (final(self).spec_queue() is Some) == (old(self).spec_queue() is Some),
            old(self).spec_queue() is None ==> (r matches Err(e) && e is InvalidConfig)
                && *final(self) == *old(self),
            old(self).spec_queue() is Some ==> (final(self).spec_queue() matches Some(nrows)
                && nrows =~= spec_tag_swept(old(self).spec_queue().unwrap(), tag@) && r
                == Result::<u64, NetworkError>::Ok(
                (old(self).spec_queue().unwrap().len() - nrows.len()) as u64,
            )),
    {
        match self.queue {
            Some(ref mut q) => match q.cancel_by_tag(tag.as_str()) {
                Ok(n) => Ok(n),
                Err(_) => Err(NetworkError::QueueError("could not cancel".to_owned())),
            },
            None => Err(NetworkError::InvalidConfig("Queue not enabled".to_owned())),
        }
    }

    /// How many requests are waiting.
    pub fn get_queue_size(&self) -> (r: Result<u64, NetworkError>)
        requires
            self.wf(),
        ensures
            self.spec_queue() matches Some(rows) ==> r == Result::<u64, NetworkError>::Ok(
                rows.len() as u64,
            ),
            self.spec_queue() is None ==> (r matches Err(e) && e is InvalidConfig),
    {
        match self.queue {
            Some(ref q) => match q.size() {
                Ok(n) => Ok(n),
                Err(_) => Err(NetworkError::QueueError("could not read the queue".to_owned())),
            },
            None => Err(NetworkError::InvalidConfig("Queue not enabled".to_owned())),
        }
    }

    /// Clear the request queue.
    pub fn clear_queue(&mut self) -> (r: Result<(), NetworkError>)
        requires
            old(self).wf(),
        ensures
            final(self).wf(),
            old(self).spec_queue() is Some ==> final(self).spec_queue() == Some(
                Seq::<QueuedRequest>::empty(),
            ),
            old(self).spec_queue() is None ==> (r matches Err(e) && e is InvalidConfig),
    {
        match self.queue {
            Some(ref mut q) => match q.clear() {
                Ok(_) => Ok(()),
                Err(_) => Err(NetworkError::QueueError("could not clear".to_owned())),
            },
            None => Err(NetworkError::InvalidConfig("Queue not enabled".to_owned())),
        }
    }

    /// Get a cached response: a returned entry is the stored one for the
    /// key and counts a hit, with only its last access touched; `None`
    /// leaves the rows alone and counts a miss, and is certain when no
    /// entry carries the key.
    pub fn get_cached(&mut self, method: String, url: String) -> (r: Result<
        Option<CachedResponse>,
        NetworkError,
    >)
        requires
            old(self).wf(),
        ensures
            final(self).wf(),
            final(self).spec_queue() == old(self).spec_queue(),
            final(self).spec_status() == old(self).spec_status(),
            (final(self).spec_cache() is Some) == (old(self).spec_cache() is Some),
            old(self).spec_cache() is None ==> (r matches Err(e) && e is InvalidConfig)
                && *final(self) == *old(self),
            old(self).spec_cache() is Some ==> r is Ok,
            (old(self).spec_cache() matches Some(rows) && forall|i: int|
                0 <= i < rows.len() ==> (#[trigger] rows[i].cache_key@) != spec_cache_key(
                    method@,
                    url@,
                )) ==> (r matches Ok(v) && v is None),
            r matches Ok(Some(e)) ==> spec_hit_step(
                old(self).spec_cache().unwrap(),
                final(self).spec_cache().unwrap(),
                spec_cache_key(method@, url@),
                e,
            ) && final(self).spec_cache_hits() == Some(
                spec_inc_sat(old(self).spec_cache_hits().unwrap()),
            ) && final(self).spec_cache_misses() == old(self).spec_cache_misses(),
            r matches Ok(None::<CachedResponse>) ==> final(self).spec_cache() == old(
                self,
            ).spec_cache() && final(self).spec_cache_misses() == Some(
                spec_inc_sat(old(self).spec_cache_misses().unwrap()),
            ) && final(self).spec_cache_hits() == old(self).spec_cache_hits(),
    {
        match self.cache {
            Some(ref mut c) => {
                let ghost c0: HttpCache = *c;
                let res = c.get(method.as_str(), url.as_str());
                proof {
                    assert(c0@ == old(self).spec_cache().unwrap());
                    if let Ok(Some(ref e)) = res {
                        assert(spec_hit_step(c0@, c@, spec_cache_key(method@, url@), *e));
                    }
                }
                match res {
                    Ok(e) => Ok(e),
                    Err(_) => Err(NetworkError::CacheError("could not read the cache".to_owned())),
                }
            },
            None => Err(NetworkError::InvalidConfig("Cache not enabled".to_owned())),
        }
    }

    /// Store a response in the cache.
    pub fn cache_response(
        &mut self,
        method: String,
        url: String,
        status_code: u16,
        headers_json: String,
        body: String,
        ttl_seconds: u64,
        etag: Option<String>,
        last_modified: Option<String>,
    ) -> (r: Result<(), NetworkError>)
        requires
            old(self).wf(),
        ensures
            final(self).wf(),
            final(self).spec_queue() == old(self).spec_queue(),
            final(self).spec_status() == old(self).spec_status(),
            (final(self).spec_cache() is Some) == (old(self).spec_cache() is Some),
            old(self).spec_cache() is None ==> (r matches Err(e) && e is InvalidConfig)
                && *final(self) == *old(self),
            old(self).spec_cache() is Some ==> r is Ok && (final(self).spec_cache() matches Some(
                nrows,
            ) && ({
                let key = spec_cache_key(method@, url@);
                &&& nrows.len() >= 1
                &&& nrows.last().cache_key@ == key
                &&& nrows.last().body@ == body@
                &&& nrows.last().status_code == status_code
                &&& (forall|i: int|
                    0 <= i < nrows.len() - 1 ==> (#[trigger] nrows[i].cache_key@) != key)
            })),
            old(self).spec_cache() is Some ==> final(self).spec_cache_hits() == old(
                self,
            ).spec_cache_hits() && final(self).spec_cache_misses() == old(self).spec_cache_misses(),
    {
        match self.cache {
            Some(ref mut c) => {
                let put = c.put(
                    method.as_str(),
                    url.as_str(),
                    status_code,
                    headers_json.as_str(),
                    body.as_str(),
                    ttl_seconds,
                    match etag {
                        Some(ref e) => Some(e.as_str()),
                        None => None,
                    },
                    match last_modified {
                        Some(ref l) => Some(l.as_str()),
                        None => None,
                    },
                );
                match put {
                    Ok(_) => Ok(()),
                    Err(_) => Err(NetworkError::CacheError("could not store".to_owned())),
                }
            },
            None => Err(NetworkError::InvalidConfig("Cache not enabled".to_owned())),
        }
    }

    /// Invalidate a cache entry; says whether one carried the key, and
    /// afterwards none does.
    pub fn invalidate_cache(&mut self, method: String, url: String) -> (r: Result<
        bool,
        NetworkError,
    >)
        requires
            old(self).wf(),
        ensures
            final(self).wf(),
            final(self).spec_queue() == old(self).spec_queue(),
            final(self).spec_status() == old(self).spec_status(),
            (final(self).spec_cache() is Some) == (old(self).spec_cache() is Some),
            old(self).spec_cache() is None ==> (r matches Err(e) && e is InvalidConfig)
                && *final(self) == *old(self),
            old(self).spec_cache() is Some ==> r is Ok,
            r matches Ok(b) ==> (b <==> exists|i: int|
                0 <= i < old(self).spec_cache().unwrap().len() && (#[trigger] old(
                    self,
                ).spec_cache().unwrap()[i].cache_key@) == spec_cache_key(method@, url@)),
            old(self).spec_cache() is Some ==> (final(self).spec_cache() matches Some(nrows)
                && forall|i: int|
                0 <= i < nrows.len() ==> (#[trigger] nrows[i].cache_key@) != spec_cache_key(
                    method@,
                    url@,
                )),
    {
        match self.cache {
            Some(ref mut c) => match c.invalidate(method.as_str(), url.as_str()) {
                Ok(b) => Ok(b),
                Err(_) => Err(NetworkError::CacheError("could not invalidate".to_owned())),
            },
            None => Err(NetworkError::InvalidConfig("Cache not enabled".to_owned())),
        }
    }

    /// Get cache statistics: entry and byte counts, the hit and miss
    /// counters, and the hit rate in thousandths.
    pub fn get_cache_stats(&self) -> (r: Result<CacheStats, NetworkError>)
        requires
            self.wf(),
        ensures
            self.spec_cache() is None ==> (r matches Err(e) && e is InvalidConfig),
            self.spec_cache() is Some ==> r is Ok,
            r matches Ok(st) ==> ({
                let rows = self.spec_cache().unwrap();
                &&& st.total_entries == rows.len()
                &&& (spec_total_size(rows) <= u64::MAX ==> st.total_size_bytes == spec_total_size(
                    rows,
                ))
                &&& st.hit_count == self.spec_cache_hits().unwrap()
                &&& st.miss_count == self.spec_cache_misses().unwrap()
                &&& st.hit_rate_permille == (if st.hit_count + st.miss_count > 0 {
                    st.hit_count * 1000 / (st.hit_count + st.miss_count)
                } else {
                    0int
                })
            }),
    {
        match self.cache {
            Some(ref c) => match c.stats() {
                Ok(st) => Ok(st),
                Err(_) => Err(NetworkError::CacheError("could not read the cache".to_owned())),
            },
            None => Err(NetworkError::InvalidConfig("Cache not enabled".to_owned())),
        }
    }

    /// Clear the entire cache.
    pub fn clear_cache(&mut self) -> (r: Result<(), NetworkError>)
        requires
            old(self).wf(),
        ensures
            final(self).wf(),
            old(self).spec_cache() is Some ==> final(self).spec_cache() == Some(
                Seq::<CachedResponse>::empty(),
            ),
            old(self).spec_cache() is None ==> (r matches Err(e) && e is InvalidConfig),
    {
        match self.cache {
            Some(ref mut c) => match c.clear() {
                Ok(_) => Ok(()),
                Err(_) => Err(NetworkError::CacheError("could not clear".to_owned())),
            },
            None => Err(NetworkError::InvalidConfig("Cache not enabled".to_owned())),
        }
    }

    /// Run maintenance: expired cache rows and day-old non-critical queued
    /// requests are dropped.  Whatever the clock read, the surviving cache
    /// rows are an expiry sweep and the surviving queue rows an age sweep
    /// of the old ones at some reading.
    pub fn cleanup(&mut self) -> (r: Result<(), NetworkError>)
        requires
            old(self).wf(),
        ensures
            final(self).wf(),
            final(self).spec_status() == old(self).spec_status(),
            (final(self).spec_queue() is Some) == (old(self).spec_queue() is Some),
            (final(self).spec_cache() is Some) == (old(self).spec_cache() is Some),
            old(self).spec_cache() is Some ==> (final(self).spec_cache() matches Some(ncr)
                && exists|t: i64| ncr =~= #[trigger] spec_fresh_swept(
                    old(self).spec_cache().unwrap(),
                    t,
                )),
            old(self).spec_queue() is Some ==> (final(self).spec_queue() matches Some(nqr)
                && exists|t: i64| nqr =~= #[trigger] spec_old_swept(
                    old(self).spec_queue().unwrap(),
                    spec_cutoff(t, 24),
                )),
            r is Ok,
    {
        match self.cache {
            Some(ref mut c) => {
                let ghost c0: HttpCache = *c;
                let swept = c.cleanup_expired();
                proof {
                    let t = choose|t: i64| c@ =~= #[trigger] spec_fresh_swept(c0@, t);
                    assert(c@ =~= spec_fresh_swept(c0@, t));
                    assert(c0@ == old(self).spec_cache().unwrap());
                    assert(exists|u: i64|
                        c@ =~= #[trigger] spec_fresh_swept(old(self).spec_cache().unwrap(), u));
                }
                match swept {
                    Ok(_) => {},
                    Err(_) => {},
                }
            },
            None => {},
        }
        match self.queue {
            Some(ref mut q) => {
                let ghost q0: RequestQueue = *q;
                let reaped = q.cleanup_old(24);
                proof {
                    let t = choose|t: i64| q@ =~= #[trigger] spec_old_swept(q0@, spec_cutoff(t, 24));
                    assert(q@ =~= spec_old_swept(q0@, spec_cutoff(t, 24)));
                    assert(q0@ == old(self).spec_queue().unwrap());
                    assert(exists|u: i64|
                        q@ =~= #[trigger] spec_old_swept(
                            old(self).spec_queue().unwrap(),
                            spec_cutoff(u, 24),
                        ));
                }
                match reaped {
                    Ok(_) => {},
                    Err(_) => {},
                }
            },
            None => {},
        }
        Ok(())
    }
}

} // verus!
