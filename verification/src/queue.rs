//! Persistent priority request queue: requests wait with a priority, a
//! retry budget and an exponential backoff schedule, and are released only
//! when the network quality clears the priority's gate.

use vstd::prelude::*;

use crate::runtime::new_uuid;
use crate::runtime::now_ms;
use crate::text::ascii_upper;
use crate::text::spec_ascii_upper;
use crate::text::str_eq;

verus! {

/// Request priority levels, from droppable telemetry up to must-succeed
/// work.
#[derive(Debug, Clone, Copy, PartialEq, Eq, PartialOrd, Ord, Structural)]
pub enum Priority {
    /// Send only on good connections; can be dropped.
    Low,
    /// Normal priority; queued if offline.
    Normal,
    /// Send as soon as possible; retry aggressively.
    High,
    /// Must succeed: retried indefinitely.
    Critical,
}

impl Priority {
    /// The wire number of each priority.
    pub open spec fn spec_as_i32(self) -> i32 {
        match self {
            Priority::Low => 0i32,
            Priority::Normal => 1i32,
            Priority::High => 2i32,
            Priority::Critical => 3i32,
        }
    }

    /// The wire number of this priority.
    pub fn as_i32(&self) -> (r: i32)
        ensures
            r == self.spec_as_i32(),
    {
        match self {
            Priority::Low => 0,
            Priority::Normal => 1,
            Priority::High => 2,
            Priority::Critical => 3,
        }
    }

    /// The priority a wire number denotes; anything unknown reads as
    /// `Normal`.
    pub open spec fn spec_from_i32(val: i32) -> Priority {
        if val == 0 {
            Priority::Low
        } else if val == 2 {
            Priority::High
        } else if val == 3 {
            Priority::Critical
        } else {
            Priority::Normal
        }
    }

    /// Decode a wire number.
    pub fn from_i32(val: i32) -> (r: Priority)
        ensures
            r == Priority::spec_from_i32(val),
    {
        if val == 0 {
            Priority::Low
        } else if val == 2 {
            Priority::High
        } else if val == 3 {
            Priority::Critical
        } else {
            Priority::Normal
        }
    }

    /// The retry budget of each priority; `Critical` never gives up.
    pub open spec fn spec_max_retries(self) -> u32 {
        match self {
            Priority::Low => 1u32,
            Priority::Normal => 3u32,
            Priority::High => 5u32,
            Priority::Critical => u32::MAX,
        }
    }

    /// Maximum retry attempts for this priority.
    pub fn max_retries(&self) -> (r: u32)
        ensures
            r == self.spec_max_retries(),
    {
        match self {
            Priority::Low => 1,
            Priority::Normal => 3,
            Priority::High => 5,
            Priority::Critical => u32::MAX,
        }
    }

    /// The minimum quality score each priority demands before sending.
    pub open spec fn spec_min_quality_score(self) -> u8 {
        match self {
            Priority::Low => 50u8,
            Priority::Normal => 20u8,
            Priority::High => 10u8,
            Priority::Critical => 1u8,
        }
    }

    /// Minimum network quality score (0-100) required to send.
    pub fn min_quality_score(&self) -> (r: u8)
        ensures
            r == self.spec_min_quality_score(),
    {
        match self {
            Priority::Low => 50,
            Priority::Normal => 20,
            Priority::High => 10,
            Priority::Critical => 1,
        }
    }
}

/// HTTP method.
#[derive(Debug, Clone, Copy, PartialEq, Eq, Structural)]
pub enum HttpMethod {
    GET,
    POST,
    PUT,
    PATCH,
    DELETE,
}

/// The method an upper-cased name denotes; anything unknown reads as `GET`.
pub open spec fn spec_method_of(s: Seq<char>) -> HttpMethod {
    if s == "POST"@ {
        HttpMethod::POST
    } else if s == "PUT"@ {
        HttpMethod::PUT
    } else if s == "PATCH"@ {
        HttpMethod::PATCH
    } else if s == "DELETE"@ {
        HttpMethod::DELETE
    } else {
        HttpMethod::GET
    }
}

impl HttpMethod {
    /// The canonical name of this method.
    pub fn as_str(&self) -> (r: &'static str)
        ensures
            match *self {
                HttpMethod::GET => r@ == "GET"@,
                HttpMethod::POST => r@ == "POST"@,
                HttpMethod::PUT => r@ == "PUT"@,
                HttpMethod::PATCH => r@ == "PATCH"@,
                HttpMethod::DELETE => r@ == "DELETE"@,
            },
    {
        match self {
            HttpMethod::GET => "GET",
            HttpMethod::POST => "POST",
            HttpMethod::PUT => "PUT",
            HttpMethod::PATCH => "PATCH",
            HttpMethod::DELETE => "DELETE",
        }
    }

    /// Parse a method name, ASCII case-insensitively.
    pub fn from_str(s: &str) -> (r: HttpMethod)
        ensures
            r == spec_method_of(spec_ascii_upper(s@)),
    {
        let upper: String = ascii_upper(s);
        if str_eq(upper.as_str(), "POST") {
            HttpMethod::POST
        } else if str_eq(upper.as_str(), "PUT") {
            HttpMethod::PUT
        } else if str_eq(upper.as_str(), "PATCH") {
            HttpMethod::PATCH
        } else if str_eq(upper.as_str(), "DELETE") {
            HttpMethod::DELETE
        } else {
            HttpMethod::GET
        }
    }
}

/// A queued network request.  Timestamps are milliseconds since the epoch.
#[derive(Debug, Clone)]
pub struct QueuedRequest {
    /// Unique request id.
    pub id: String,
    /// HTTP method.
    pub method: String,
    /// Full URL.
    pub url: String,
    /// Request headers as JSON.
    pub headers_json: String,
    /// Request body, if any.
    pub body: Option<String>,
    /// Priority level, as its wire number.
    pub priority: i32,
    /// Retry attempts so far.
    pub retry_count: u32,
    /// Maximum retries allowed.
    pub max_retries: u32,
    /// When the request was created.
    pub created_at: i64,
    /// When to next attempt it (for backoff).
    pub next_attempt_at: i64,
    /// Whether to compress the request body.
    pub compress: bool,
    /// Optional tag for grouping and cancellation.
    pub tag: Option<String>,
}

impl QueuedRequest {
    /// An exact copy of this request.
    pub fn duplicate(&self) -> (r: QueuedRequest)
        ensures
            r == *self,
    {
        QueuedRequest {
            id: self.id.clone(),
            method: self.method.clone(),
            url: self.url.clone(),
            headers_json: self.headers_json.clone(),
            body: crate::crdt::opt_string_duplicate(&self.body),
            priority: self.priority,
            retry_count: self.retry_count,
            max_retries: self.max_retries,
            created_at: self.created_at,
            next_attempt_at: self.next_attempt_at,
            compress: self.compress,
            tag: crate::crdt::opt_string_duplicate(&self.tag),
        }
    }
}

/// Result of processing a queued request.
#[derive(Debug, Clone)]
pub struct QueueProcessResult {
    /// Request id.
    pub request_id: String,
    /// Whether the request should be sent now.
    pub should_send: bool,
    /// Request details, present when it should be sent.
    pub request: Option<QueuedRequest>,
}

/// Errors of the request queue.
#[derive(Debug, Clone)]
pub enum QueueError {
    /// Backing-store failure.
    DatabaseError(String),
    /// The addressed request is absent.
    NotFound(String),
    /// The queue is empty.
    Empty,
    /// A malformed request record.
    SerializationError(String),
}

/// Whether a request is due at time `now`.
pub open spec fn spec_due(q: QueuedRequest, now: i64) -> bool {
    q.next_attempt_at <= now
}

/// Whether `a` is served strictly before `b`: higher priority first, then
/// older creation time.
pub open spec fn spec_served_before(a: QueuedRequest, b: QueuedRequest) -> bool {
    a.priority > b.priority || (a.priority == b.priority && a.created_at < b.created_at)
}

/// Whether every entry of `list` is one of `rows`.
pub open spec fn spec_all_from(list: Seq<QueuedRequest>, rows: Seq<QueuedRequest>) -> bool {
    forall|x: int| 0 <= x < list.len() ==> rows.contains(#[trigger] list[x])
}

/// Powers of two.
pub open spec fn spec_pow2(n: int) -> int
    decreases n,
{
    if n <= 0 {
        1
    } else {
        2 * spec_pow2(n - 1)
    }
}

/// The backoff in seconds after a retry count: `2 * 2^n`, capped at 300.
pub open spec fn spec_backoff_secs(n: int) -> int {
    if 2 * spec_pow2(n) > 300 {
        300
    } else {
        2 * spec_pow2(n)
    }
}

/// The backoff in seconds, executably.
fn backoff_secs(n: u32) -> (r: u64)
    ensures
        r == spec_backoff_secs(n as int),
{
    proof {
        assert(spec_pow2(0) == 1);
        assert(spec_pow2(1) == 2);
        assert(spec_pow2(2) == 4);
        assert(spec_pow2(3) == 8);
        assert(spec_pow2(4) == 16);
        assert(spec_pow2(5) == 32);
        assert(spec_pow2(6) == 64);
        assert(spec_pow2(7) == 128);
        assert(spec_pow2(8) == 256);
    }
    if n >= 8 {
        proof {
            assert forall|m: int| m >= 8 implies spec_pow2(m) >= 256 by {
                lemma_pow2_mono(8, m);
            }
        }
        300
    } else if n == 0 {
        2
    } else if n == 1 {
        4
    } else if n == 2 {
        8
    } else if n == 3 {
        16
    } else if n == 4 {
        32
    } else if n == 5 {
        64
    } else if n == 6 {
        128
    } else {
        256
    }
}

/// Powers of two grow with the exponent.
proof fn lemma_pow2_mono(a: int, b: int)
    requires
        0 <= a <= b,
    ensures
        spec_pow2(a) <= spec_pow2(b),
    decreases b - a,
{
    if a < b {
        lemma_pow2_mono(a, b - 1);
        assert(spec_pow2(b - 1) >= 1) by {
            lemma_pow2_pos(b - 1);
        }
    }
}

/// Powers of two are positive.
proof fn lemma_pow2_pos(n: int)
    ensures
        spec_pow2(n) >= 1,
    decreases (if n > 0 { n } else { 0int }),
{
    if n > 0 {
        lemma_pow2_pos(n - 1);
    }
}

/// A SQLite table keeps this queue durable in deployment; here it is the
/// verified in-memory model the queue logic is proved against.
pub struct RequestQueue {
    rows: Vec<QueuedRequest>,
}

impl RequestQueue {
    /// The queued requests, in insertion order.
    pub closed spec fn view(&self) -> Seq<QueuedRequest> {
        self.rows@
    }

    /// Well-formed: every waiting request still has retries left.
    pub open spec fn wf(&self) -> bool {
        forall|i: int| 0 <= i < self@.len() ==> (#[trigger] self@[i]).retry_count < self@[i].max_retries
    }

    /// Create an empty request queue.  The path names the durable table a
    /// deployment would mirror this queue into.
    pub fn new(db_path: &str) -> (r: Result<RequestQueue, QueueError>)
        ensures
            r matches Ok(q) ==> q.wf() && q@ =~= Seq::<QueuedRequest>::empty(),
    {
        Ok(RequestQueue { rows: Vec::new() })
    }

    /// Add a request to the queue at time `now`: it gets a fresh id, a zero
    /// retry count, the priority's retry budget, and is due immediately.
    pub fn enqueue_at(
        &mut self,
        method: &str,
        url: &str,
        headers_json: &str,
        body: Option<&str>,
        priority: Priority,
        compress: bool,
        tag: Option<&str>,
        now: i64,
    ) -> (r: Result<String, QueueError>)
        requires
            old(self).wf(),
        ensures
            final(self).wf(),
            r matches Ok(id) ==> {
                let q = final(self)@.last();
                &&& final(self)@ =~= old(self)@.push(q)
                &&& q.id@ == id@
                &&& q.method@ == method@
                &&& q.url@ == url@
                &&& q.headers_json@ == headers_json@
                &&& (match (q.body, body) {
                    (Some(ref b), Some(b0)) => b@ == b0@,
                    (None, None) => true,
                    _ => false,
                })
                &&& q.priority == priority.spec_as_i32()
                &&& q.retry_count == 0
                &&& q.max_retries == priority.spec_max_retries()
                &&& q.created_at == now
                &&& q.next_attempt_at == now
                &&& q.compress == compress
                &&& (match (q.tag, tag) {
                    (Some(ref t), Some(t0)) => t@ == t0@,
                    (None, None) => true,
                    _ => false,
                })
            },
            r is Ok,
    {
        let id: String = new_uuid();
        let entry = QueuedRequest {
            id: id.clone(),
            method: method.to_owned(),
            url: url.to_owned(),
            headers_json: headers_json.to_owned(),
            body: match body {
                Some(b) => Some(b.to_owned()),
                None => None,
            },
            priority: priority.as_i32(),
            retry_count: 0,
            max_retries: priority.max_retries(),
            created_at: now,
            next_attempt_at: now,
            compress,
            tag: match tag {
                Some(t) => Some(t.to_owned()),
                None => None,
            },
        };
        proof {
            assert(priority.spec_max_retries() >= 1);
        }
        self.rows.push(entry);
        Ok(id)
    }

    /// Add a request to the queue, stamped with the platform clock.
    pub fn enqueue(
        &mut self,
        method: &str,
        url: &str,
        headers_json: &str,
        body: Option<&str>,
        priority: Priority,
        compress: bool,
        tag: Option<&str>,
    ) -> (r: Result<String, QueueError>)
        requires
            old(self).wf(),
        ensures
            final(self).wf(),
            r is Ok,
            r matches Ok(id) ==> {
                let q = final(self)@.last();
                &&& final(self)@ =~= old(self)@.push(q)
                &&& q.id@ == id@
                &&& q.method@ == method@
                &&& q.url@ == url@
                &&& q.headers_json@ == headers_json@
                &&& q.priority == priority.spec_as_i32()
                &&& q.retry_count == 0
                &&& q.max_retries == priority.spec_max_retries()
                &&& q.created_at == q.next_attempt_at
                &&& q.compress == compress
                &&& (match (q.body, body) {
                    (Some(ref b), Some(b0)) => b@ == b0@,
                    (None, None) => true,
                    _ => false,
                })
                &&& (match (q.tag, tag) {
                    (Some(ref t), Some(t0)) => t@ == t0@,
                    (None, None) => true,
                    _ => false,
                })
            },
    {
        let now: i64 = now_ms();
        self.enqueue_at(method, url, headers_json, body, priority, compress, tag, now)
    }

    /// The index of the request served first among those due at `now`:
    /// highest priority, oldest creation time, first inserted.
    fn find_candidate(&self, now: i64) -> (r: Option<usize>)
        ensures
            r matches Some(c) ==> c < self@.len() && spec_due(self@[c as int], now) && (forall|
                j: int,
            |
                0 <= j < self@.len() && spec_due(#[trigger] self@[j], now) ==> !spec_served_before(
                    self@[j],
                    self@[c as int],
                )),
            r is None ==> forall|j: int| 0 <= j < self@.len() ==> !spec_due(#[trigger] self@[j], now),
    {
        let n: usize = self.rows.len();
        let mut best: Option<usize> = None;
        let mut i: usize = 0;
        while i < n
            invariant
                n == self@.len(),
                0 <= i <= n,
                best matches Some(c) ==> c < i && spec_due(self@[c as int], now) && (forall|
                    j: int,
                |
                    0 <= j < i && spec_due(#[trigger] self@[j], now) ==> !spec_served_before(
                        self@[j],
                        self@[c as int],
                    )),
                best is None ==> forall|j: int| 0 <= j < i ==> !spec_due(#[trigger] self@[j], now),
            decreases n - i,
        {
            if self.rows[i].next_attempt_at <= now {
                match best {
                    None => {
                        best = Some(i);
                    },
                    Some(c) => {
                        let cand = &self.rows[c];
                        let row = &self.rows[i];
                        if row.priority > cand.priority || (row.priority == cand.priority
                            && row.created_at < cand.created_at) {
                            best = Some(i);
                        }
                    },
                }
            }
            i = i + 1;
        }
        best
    }

    /// Get the next request that should be sent at time `now`, given the
    /// current network quality.  The single best due candidate is chosen by
    /// priority, then age; it is withheld when the quality is below its
    /// priority's gate, even if lower-priority requests would pass theirs.
    pub fn dequeue_at(&self, current_quality_score: u8, now: i64) -> (r: Result<
        Option<QueuedRequest>,
        QueueError,
    >)
        requires
            self.wf(),
        ensures
            r matches Ok(opt) && opt matches Some(req) ==> exists|c: int|
                0 <= c < self@.len() && req == #[trigger] self@[c] && spec_due(self@[c], now) && (
                forall|j: int|
                    0 <= j < self@.len() && spec_due(#[trigger] self@[j], now)
                        ==> !spec_served_before(self@[j], self@[c])) && current_quality_score
                    >= Priority::spec_from_i32(self@[c].priority).spec_min_quality_score(),
            r matches Ok(opt) && opt is None ==> (forall|j: int|
                0 <= j < self@.len() ==> !spec_due(#[trigger] self@[j], now)) || (exists|c: int|
                0 <= c < self@.len() && spec_due(#[trigger] self@[c], now) && (forall|j: int|
                    0 <= j < self@.len() && spec_due(#[trigger] self@[j], now)
                        ==> !spec_served_before(self@[j], self@[c])) && current_quality_score
                    < Priority::spec_from_i32(self@[c].priority).spec_min_quality_score()),
            r is Ok,
    {
        match self.find_candidate(now) {
            None => Ok(None),
            Some(c) => {
                let priority: Priority = Priority::from_i32(self.rows[c].priority);
                if current_quality_score >= priority.min_quality_score() {
                    Ok(Some(self.rows[c].duplicate()))
                } else {
                    Ok(None)
                }
            },
        }
    }

    /// Get the next request that should be sent now, given the current
    /// network quality.
    pub fn dequeue(&self, current_quality_score: u8) -> (r: Result<
        Option<QueuedRequest>,
        QueueError,
    >)
        requires
            self.wf(),
        ensures
            r is Ok,
            r matches Ok(opt) && opt matches Some(req) ==> spec_dequeued(
                self@,
                req,
                current_quality_score,
            ),
    {
        let now: i64 = now_ms();
        self.dequeue_at(current_quality_score, now)
    }

    /// The position of a request id, if present.
    fn find_by_id(&self, request_id: &str) -> (r: Option<usize>)
        ensures
            r matches Some(i) ==> i < self@.len() && self@[i as int].id@ == request_id@,
            r is None ==> forall|i: int|
                0 <= i < self@.len() ==> (#[trigger] self@[i]).id@ != request_id@,
    {
        let n: usize = self.rows.len();
        let mut i: usize = 0;
        while i < n
            invariant
                n == self@.len(),
                0 <= i <= n,
                forall|j: int| 0 <= j < i ==> (#[trigger] self@[j]).id@ != request_id@,
            decreases n - i,
        {
            if str_eq(self.rows[i].id.as_str(), request_id) {
                return Some(i);
            }
            i = i + 1;
        }
        None
    }

    /// Mark a request as successfully completed: its row is removed; says
    /// whether one existed.
    pub fn complete(&mut self, request_id: &str) -> (r: Result<bool, QueueError>)
        requires
            old(self).wf(),
        ensures
            final(self).wf(),
            r matches Ok(b) ==> (b <==> spec_has_id(old(self)@, request_id@)),
            r matches Ok(true) ==> spec_removed_id(old(self)@, final(self)@, request_id@),
            r matches Ok(false) ==> final(self)@ == old(self)@,
            r is Ok,
    {
        match self.find_by_id(request_id) {
            Some(i) => {
                self.rows.remove(i);
                Ok(true)
            },
            None => Ok(false),
        }
    }

    /// Mark a request as failed at time `now`: its retry count goes up; if
    /// the budget is used up the row is dropped and the call says `false`,
    /// else the next attempt backs off by `min(2 * 2^retries, 300)` seconds
    /// and the call says `true`.
    pub fn fail_at(&mut self, request_id: &str, now: i64) -> (r: Result<bool, QueueError>)
        requires
            old(self).wf(),
        ensures
            final(self).wf(),
            r matches Err(e) ==> e is NotFound && final(self)@ == old(self)@ && !spec_has_id(
                old(self)@,
                request_id@,
            ),
            r matches Ok(b) ==> spec_failed(old(self)@, final(self)@, request_id@, b),
            r matches Ok(b) ==> exists|i: int|
                {
                    &&& 0 <= i < old(self)@.len()
                    &&& (#[trigger] old(self)@[i]).id@ == request_id@
                    &&& (!b ==> old(self)@[i].retry_count + 1 >= old(self)@[i].max_retries
                        && final(self)@ == old(self)@.remove(i))
                    &&& (b ==> old(self)@[i].retry_count + 1 < old(self)@[i].max_retries
                        && final(self)@ == old(self)@.update(
                        i,
                        QueuedRequest {
                            retry_count: (old(self)@[i].retry_count + 1) as u32,
                            next_attempt_at: spec_next_attempt(
                                now,
                                old(self)@[i].retry_count + 1,
                            ),
                            ..old(self)@[i]
                        },
                    ))
                },
    {
        let found: Option<usize> = self.find_by_id(request_id);
        let i: usize = match found {
            Some(i) => i,
            None => {
                return Err(QueueError::NotFound(request_id.to_owned()));
            },
        };
        let new_retry_count: u32 = self.rows[i].retry_count + 1;
        if new_retry_count >= self.rows[i].max_retries {
            self.rows.remove(i);
            return Ok(false);
        }
        let backoff: u64 = backoff_secs(new_retry_count);
        let backoff_ms: i64 = (backoff as i64) * 1000;
        let next_attempt: i64 = match now.checked_add(backoff_ms) {
            Some(t) => t,
            None => i64::MAX,
        };
        proof {
            assert(spec_pow2(0) == 1);
            lemma_pow2_pos(new_retry_count as int);
            assert(next_attempt == spec_next_attempt(now, new_retry_count as int));
        }
        let row = &self.rows[i];
        let updated = QueuedRequest {
            id: row.id.clone(),
            method: row.method.clone(),
            url: row.url.clone(),
            headers_json: row.headers_json.clone(),
            body: crate::crdt::opt_string_duplicate(&row.body),
            priority: row.priority,
            retry_count: new_retry_count,
            max_retries: row.max_retries,
            created_at: row.created_at,
            next_attempt_at: next_attempt,
            compress: row.compress,
            tag: crate::crdt::opt_string_duplicate(&row.tag),
        };
        self.rows.set(i, updated);
        Ok(true)
    }

    /// Mark a request as failed against the platform clock: the retry
    /// budget and removal follow the exact rule, and only the retry count
    /// and next attempt of the addressed request change.
    pub fn fail(&mut self, request_id: &str) -> (r: Result<bool, QueueError>)
        requires
            old(self).wf(),
        ensures
            final(self).wf(),
            r matches Err(e) ==> e is NotFound && final(self)@ == old(self)@ && !spec_has_id(
                old(self)@,
                request_id@,
            ),
            r matches Ok(b) ==> spec_failed(old(self)@, final(self)@, request_id@, b),
    {
        let now: i64 = now_ms();
        let r = self.fail_at(request_id, now);
        r
    }

    /// How many requests are waiting.
    pub fn size(&self) -> (r: Result<u64, QueueError>)
        ensures
            r == Result::<u64, QueueError>::Ok(self@.len() as u64),
    {
        Ok(self.rows.len() as u64)
    }

    /// How many requests of one priority are waiting.
    pub fn size_by_priority(&self, priority: Priority) -> (r: Result<u64, QueueError>)
        ensures
            r matches Ok(c) ==> c == self@.filter(
                |q: QueuedRequest| q.priority == priority.spec_as_i32(),
            ).len(),
            r is Ok,
    {
        let want: i32 = priority.as_i32();
        let n: usize = self.rows.len();
        let mut count: u64 = 0;
        let mut i: usize = 0;
        while i < n
            invariant
                n == self@.len(),
                0 <= i <= n,
                want == priority.spec_as_i32(),
                count == self@.take(i as int).filter(
                    |q: QueuedRequest| q.priority == priority.spec_as_i32(),
                ).len(),
                count <= i,
            decreases n - i,
        {
            proof {
                reveal(Seq::filter);
                assert(self@.take(i + 1).drop_last() =~= self@.take(i as int));
                assert(self@.take(i + 1).last() == self@[i as int]);
            }
            if self.rows[i].priority == want {
                count = count + 1;
            }
            i = i + 1;
        }
        proof {
            assert(self@.take(n as int) =~= self@);
        }
        Ok(count)
    }

    /// Cancel all requests with a specific tag; says how many went.
    pub fn cancel_by_tag(&mut self, tag: &str) -> (r: Result<u64, QueueError>)
        requires
            old(self).wf(),
        ensures
            final(self).wf(),
            final(self)@ =~= spec_tag_swept(old(self)@, tag@),
            r == Result::<u64, QueueError>::Ok(
                (old(self)@.len() - final(self)@.len()) as u64,
            ),
    {
        let n: usize = self.rows.len();
        let mut kept: Vec<QueuedRequest> = Vec::new();
        let mut i: usize = 0;
        while i < n
            invariant
                n == old(self)@.len(),
                self@ == old(self)@,
                self.wf(),
                0 <= i <= n,
                kept@ =~= spec_tag_swept(old(self)@.take(i as int), tag@),
                kept@.len() <= i,
            decreases n - i,
        {
            proof {
                assert(old(self)@.take(i + 1).drop_last() =~= old(self)@.take(i as int));
                assert(old(self)@.take(i + 1).last() == old(self)@[i as int]);
            }
            let keep: bool = match self.rows[i].tag {
                Some(ref t) => !str_eq(t.as_str(), tag),
                None => true,
            };
            if keep {
                let q: QueuedRequest = self.rows[i].duplicate();
                kept.push(q);
            }
            i = i + 1;
        }
        proof {
            assert(old(self)@.take(n as int) =~= old(self)@);
            assert(kept@ =~= spec_tag_swept(old(self)@, tag@));
            lemma_tag_swept_from(old(self)@, tag@);
            assert forall|j: int| 0 <= j < kept@.len() implies (#[trigger] kept@[j]).retry_count
                < kept@[j].max_retries by {
                let x: int = choose|x: int|
                    0 <= x < old(self)@.len() && old(self)@[x] == kept@[j];
            }
        }
        let removed: usize = n - kept.len();
        self.rows = kept;
        Ok(removed as u64)
    }

    /// Cancel a specific request; says whether a row was removed.
    pub fn cancel(&mut self, request_id: &str) -> (r: Result<bool, QueueError>)
        requires
            old(self).wf(),
        ensures
            final(self).wf(),
            r matches Ok(b) ==> (b <==> spec_has_id(old(self)@, request_id@)),
            r matches Ok(true) ==> spec_removed_id(old(self)@, final(self)@, request_id@),
            r matches Ok(false) ==> final(self)@ == old(self)@,
            r is Ok,
    {
        self.complete(request_id)
    }

    /// Clear the entire queue.
    pub fn clear(&mut self) -> (r: Result<(), QueueError>)
        requires
            old(self).wf(),
        ensures
            final(self).wf(),
            final(self)@ =~= Seq::<QueuedRequest>::empty(),
            r is Ok,
    {
        self.rows.clear();
        Ok(())
    }

    /// Pending requests in serving order, highest priority first and older
    /// requests before newer ones, up to `limit` entries.
    pub fn list_pending(&self, limit: u32) -> (r: Result<Vec<QueuedRequest>, QueueError>)
        requires
            self.wf(),
        ensures
            r matches Ok(list) ==> {
                &&& list@.len() == (if limit as int <= self@.len() {
                    limit as int
                } else {
                    self@.len() as int
                })
                &&& spec_all_from(list@, self@)
                &&& (forall|x: int, y: int|
                    0 <= x < y < list@.len() ==> !spec_served_before(
                        #[trigger] list@[y],
                        #[trigger] list@[x],
                    ))
            },
            r is Ok,
    {
        let n: usize = self.rows.len();
        let mut out: Vec<QueuedRequest> = Vec::new();
        let mut i: usize = 0;
        while i < n
            invariant
                self.wf(),
                n == self@.len(),
                0 <= i <= n,
                out@.len() == i,
                spec_all_from(out@, self@),
                forall|x: int, y: int|
                    0 <= x < y < out@.len() ==> !spec_served_before(
                        #[trigger] out@[y],
                        #[trigger] out@[x],
                    ),
            decreases n - i,
        {
            let row: QueuedRequest = self.rows[i].duplicate();
            let m: usize = out.len();
            let mut p: usize = 0;
            while p < m && !(row.priority > out[p].priority || (row.priority == out[p].priority
                && row.created_at < out[p].created_at))
                invariant
                    m == out@.len(),
                    0 <= p <= m,
                    forall|x: int| 0 <= x < p ==> !spec_served_before(row, #[trigger] out@[x]),
                decreases m - p,
            {
                p = p + 1;
            }
            let ghost oldout = out@;
            out.insert(p, row);
            proof {
                oldout.insert_ensures(p as int, row);
                assert forall|x: int| 0 <= x < out@.len() implies self@.contains(
                    #[trigger] out@[x],
                ) by {
                    if x < p {
                        assert(out@[x] == oldout[x]);
                    } else if x > p {
                        assert(out@[x] == oldout[x - 1]);
                    } else {
                        assert(out@[x] == self@[i as int]);
                        assert(self@.contains(out@[x])) by {
                            assert(self@[i as int] == out@[x]);
                        }
                    }
                }
                assert forall|x: int, y: int| 0 <= x < y < out@.len() implies !spec_served_before(
                    #[trigger] out@[y],
                    #[trigger] out@[x],
                ) by {
                    if y == p {
                        assert(out@[x] == oldout[x]);
                    } else if x == p {
                        assert(out@[y] == oldout[y - 1]);
                        if p < m {
                            assert(!spec_served_before(oldout[y - 1], oldout[p as int]));
                        }
                    } else {
                        let x0: int = if x < p { x } else { x - 1 };
                        let y0: int = if y < p { y } else { y - 1 };
                        assert(out@[x] == oldout[x0]);
                        assert(out@[y] == oldout[y0]);
                    }
                }
            }
            i = i + 1;
        }
        let cap: usize = if (limit as usize) < out.len() {
            limit as usize
        } else {
            out.len()
        };
        let ghost full = out@;
        out.truncate(cap);
        proof {
            assert(out@ =~= full.take(cap as int));
            assert forall|x: int| 0 <= x < out@.len() implies self@.contains(
                #[trigger] out@[x],
            ) by {
                assert(out@[x] == full[x]);
                assert(self@.contains(full[x]));
            }
            assert forall|x: int, y: int| 0 <= x < y < out@.len() implies !spec_served_before(
                #[trigger] out@[y],
                #[trigger] out@[x],
            ) by {
                assert(out@[x] == full[x]);
                assert(out@[y] == full[y]);
            }
        }
        Ok(out)
    }

    /// Remove old non-critical requests at time `now`: every request
    /// below `Critical` created before the cutoff goes, whatever its retry
    /// state; says how many went.
    pub fn cleanup_old_at(&mut self, older_than_hours: u32, now: i64) -> (r: Result<
        u64,
        QueueError,
    >)
        requires
            old(self).wf(),
        ensures
            final(self).wf(),
            final(self)@ =~= spec_old_swept(old(self)@, spec_cutoff(now, older_than_hours as int)),
            r == Result::<u64, QueueError>::Ok(
                (old(self)@.len() - final(self)@.len()) as u64,
            ),
    {
        let span: i64 = (older_than_hours as i64) * 3600000;
        let cutoff: i64 = match now.checked_sub(span) {
            Some(c) => c,
            None => i64::MIN,
        };
        proof {
            assert(cutoff == spec_cutoff(now, older_than_hours as int));
        }
        let n: usize = self.rows.len();
        let mut kept: Vec<QueuedRequest> = Vec::new();
        let mut i: usize = 0;
        while i < n
            invariant
                n == old(self)@.len(),
                self@ == old(self)@,
                self.wf(),
                0 <= i <= n,
                cutoff == spec_cutoff(now, older_than_hours as int),
                kept@ =~= spec_old_swept(
                    old(self)@.take(i as int),
                    spec_cutoff(now, older_than_hours as int),
                ),
                kept@.len() <= i,
            decreases n - i,
        {
            proof {
                assert(old(self)@.take(i + 1).drop_last() =~= old(self)@.take(i as int));
                assert(old(self)@.take(i + 1).last() == old(self)@[i as int]);
            }
            let keep: bool = !(self.rows[i].created_at < cutoff && self.rows[i].priority < 3);
            if keep {
                let q: QueuedRequest = self.rows[i].duplicate();
                kept.push(q);
            }
            i = i + 1;
        }
        proof {
            assert(old(self)@.take(n as int) =~= old(self)@);
            assert(kept@ =~= spec_old_swept(
                old(self)@,
                spec_cutoff(now, older_than_hours as int),
            ));
            lemma_old_swept_from(old(self)@, spec_cutoff(now, older_than_hours as int));
            assert forall|j: int| 0 <= j < kept@.len() implies (#[trigger] kept@[j]).retry_count
                < kept@[j].max_retries by {
                let x: int = choose|x: int|
                    0 <= x < old(self)@.len() && old(self)@[x] == kept@[j];
            }
        }
        let removed: usize = n - kept.len();
        self.rows = kept;
        Ok(removed as u64)
    }

    /// Remove old non-critical requests against the platform clock:
    /// whatever the clock read, the surviving rows are an age sweep of the
    /// old rows at some cutoff.
    pub fn cleanup_old(&mut self, older_than_hours: u32) -> (r: Result<u64, QueueError>)
        requires
            old(self).wf(),
        ensures
            final(self).wf(),
            exists|t: i64|
                final(self)@ =~= #[trigger] spec_old_swept(
                    old(self)@,
                    spec_cutoff(t, older_than_hours as int),
                ),
            r is Ok,
    {
        let now: i64 = now_ms();
        let r = self.cleanup_old_at(older_than_hours, now);
        proof {
            assert(self@ =~= spec_old_swept(
                old(self)@,
                spec_cutoff(now, older_than_hours as int),
            ));
        }
        r
    }
}

/// Whether some waiting row carries the request id.
pub open spec fn spec_has_id(rows: Seq<QueuedRequest>, request_id: Seq<char>) -> bool {
    exists|i: int| 0 <= i < rows.len() && (#[trigger] rows[i]).id@ == request_id
}

/// Whether `nrows` is `rows` with one row carrying the request id removed.
pub open spec fn spec_removed_id(
    rows: Seq<QueuedRequest>,
    nrows: Seq<QueuedRequest>,
    request_id: Seq<char>,
) -> bool {
    exists|i: int|
        0 <= i < rows.len() && (#[trigger] rows[i]).id@ == request_id && nrows == rows.remove(i)
}

/// One failure step: the addressed row is found, and either removed (its
/// retry budget is used up, `retried` is false) or kept with its retry
/// count bumped and its next attempt pushed back (`retried` is true).
pub open spec fn spec_failed(
    rows: Seq<QueuedRequest>,
    nrows: Seq<QueuedRequest>,
    request_id: Seq<char>,
    retried: bool,
) -> bool {
    exists|i: int|
        {
            &&& 0 <= i < rows.len()
            &&& (#[trigger] rows[i]).id@ == request_id
            &&& (!retried ==> rows[i].retry_count + 1 >= rows[i].max_retries && nrows
                == rows.remove(i))
            &&& (retried ==> rows[i].retry_count + 1 < rows[i].max_retries && nrows
                == rows.update(
                i,
                QueuedRequest {
                    retry_count: (rows[i].retry_count + 1) as u32,
                    next_attempt_at: nrows[i].next_attempt_at,
                    ..rows[i]
                },
            ))
        }
}

/// Whether `req` is a waiting row whose priority gate the quality passes.
pub open spec fn spec_dequeued(rows: Seq<QueuedRequest>, req: QueuedRequest, quality: u8) -> bool {
    exists|c: int|
        0 <= c < rows.len() && req == #[trigger] rows[c] && quality >= Priority::spec_from_i32(
            rows[c].priority,
        ).spec_min_quality_score()
}

/// The rows a tag cancellation leaves behind, in order.
pub open spec fn spec_tag_swept(rows: Seq<QueuedRequest>, tag: Seq<char>) -> Seq<QueuedRequest>
    decreases rows.len(),
{
    if rows.len() == 0 {
        Seq::empty()
    } else if rows.last().tag matches Some(t) && t@ == tag {
        spec_tag_swept(rows.drop_last(), tag)
    } else {
        spec_tag_swept(rows.drop_last(), tag).push(rows.last())
    }
}

/// A tag sweep keeps only rows of the input, never more of them.
pub proof fn lemma_tag_swept_from(rows: Seq<QueuedRequest>, tag: Seq<char>)
    ensures
        spec_tag_swept(rows, tag).len() <= rows.len(),
        forall|k: int|
            0 <= k < spec_tag_swept(rows, tag).len() ==> rows.contains(
                #[trigger] spec_tag_swept(rows, tag)[k],
            ),
    decreases rows.len(),
{
    if rows.len() > 0 {
        lemma_tag_swept_from(rows.drop_last(), tag);
        assert forall|k: int|
            0 <= k < spec_tag_swept(rows, tag).len() implies rows.contains(
            #[trigger] spec_tag_swept(rows, tag)[k],
        ) by {
            let sw = spec_tag_swept(rows, tag);
            let swd = spec_tag_swept(rows.drop_last(), tag);
            if k < swd.len() {
                assert(sw[k] == swd[k]);
                let j: int = choose|j: int|
                    0 <= j < rows.drop_last().len() && rows.drop_last()[j] == swd[k];
                assert(rows[j] == sw[k]);
            } else {
                assert(sw[k] == rows.last());
                assert(rows[rows.len() - 1] == sw[k]);
            }
        }
    }
}

/// The rows an age sweep with creation-time cutoff `cutoff` leaves behind:
/// a row goes only when it is both older than the cutoff and non-critical.
pub open spec fn spec_old_swept(rows: Seq<QueuedRequest>, cutoff: i64) -> Seq<QueuedRequest>
    decreases rows.len(),
{
    if rows.len() == 0 {
        Seq::empty()
    } else if rows.last().created_at < cutoff && rows.last().priority < 3 {
        spec_old_swept(rows.drop_last(), cutoff)
    } else {
        spec_old_swept(rows.drop_last(), cutoff).push(rows.last())
    }
}

/// An age sweep keeps only rows of the input, never more of them.
pub proof fn lemma_old_swept_from(rows: Seq<QueuedRequest>, cutoff: i64)
    ensures
        spec_old_swept(rows, cutoff).len() <= rows.len(),
        forall|k: int|
            0 <= k < spec_old_swept(rows, cutoff).len() ==> rows.contains(
                #[trigger] spec_old_swept(rows, cutoff)[k],
            ),
    decreases rows.len(),
{
    if rows.len() > 0 {
        lemma_old_swept_from(rows.drop_last(), cutoff);
        assert forall|k: int|
            0 <= k < spec_old_swept(rows, cutoff).len() implies rows.contains(
            #[trigger] spec_old_swept(rows, cutoff)[k],
        ) by {
            let sw = spec_old_swept(rows, cutoff);
            let swd = spec_old_swept(rows.drop_last(), cutoff);
            if k < swd.len() {
                assert(sw[k] == swd[k]);
                let j: int = choose|j: int|
                    0 <= j < rows.drop_last().len() && rows.drop_last()[j] == swd[k];
                assert(rows[j] == sw[k]);
            } else {
                assert(sw[k] == rows.last());
                assert(rows[rows.len() - 1] == sw[k]);
            }
        }
    }
}

/// The next attempt time after a failure: `now` plus the backoff, saturated
/// at the far end of time.
pub open spec fn spec_next_attempt(now: i64, retries: int) -> i64 {
    if now + spec_backoff_secs(retries) * 1000 <= i64::MAX {
        (now + spec_backoff_secs(retries) * 1000) as i64
    } else {
        i64::MAX
    }
}

/// The creation-time cutoff for a cleanup: `now` minus the window,
/// saturated at the dawn of time.
pub open spec fn spec_cutoff(now: i64, hours: int) -> i64 {
    if now - hours * 3600000 >= i64::MIN {
        (now - hours * 3600000) as i64
    } else {
        i64::MIN
    }
}

} // verus!
