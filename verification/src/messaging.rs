//! Messages between the services: the queues and their retry topology, the
//! events that are published, the routing of a user clean-up that failed,
//! and the names the consumer uses for cache keys and its broker address.
use vstd::prelude::*;
use vstd::arithmetic::power::pow;

use crate::ids::{uuid_hyphenated, uuid_string};
use crate::session::{first_index, lemma_first_index_unique};
use crate::text::{chars_of, concat, decimal, decimal_string, string_of};

verus! {

/// The queue of click events: each payload is the raw short code.
pub const CLICK_EVENTS_QUEUE: &'static str = "click_events_queue";

/// The queue of user-deleted events: `{"user_id": "<uuid>"}`.
pub const USER_DELETED_QUEUE: &'static str = "user_deleted_queue";

/// Where user-deleted events go after their last retry.
pub const USER_DELETED_DLQ: &'static str = "user_deleted_dlq";

/// A failed clean-up is retried at most this many times.
pub const MAX_DELETION_RETRIES: i32 = 3;

/// A queue to declare: durable, and for a retry queue the time its
/// messages wait and where they go when that time is up.
pub struct QueueSpec {
    pub name: String,
    pub durable: bool,
    /// `x-message-ttl`, in milliseconds.
    pub message_ttl_ms: Option<i32>,
    /// `x-dead-letter-exchange`.
    pub dead_letter_exchange: Option<String>,
    /// `x-dead-letter-routing-key`.
    pub dead_letter_routing_key: Option<String>,
}

/// The values of a [`QueueSpec`].
pub struct QueueView {
    pub name: Seq<char>,
    pub durable: bool,
    pub message_ttl_ms: Option<i32>,
    pub dead_letter_exchange: Option<Seq<char>>,
    pub dead_letter_routing_key: Option<Seq<char>>,
}

/// The view of an optional string.
pub open spec fn opt_chars(o: Option<String>) -> Option<Seq<char>> {
    match o {
        Some(s) => Some(s@),
        None => None,
    }
}

impl View for QueueSpec {
    type V = QueueView;

    open spec fn view(&self) -> QueueView {
        QueueView {
            name: self.name@,
            durable: self.durable,
            message_ttl_ms: self.message_ttl_ms,
            dead_letter_exchange: opt_chars(self.dead_letter_exchange),
            dead_letter_routing_key: opt_chars(self.dead_letter_routing_key),
        }
    }
}

/// The name of the retry queue whose messages wait `delay` seconds.
pub open spec fn retry_queue(delay: nat) -> Seq<char> {
    "user_deleted_retry_"@ + decimal(delay) + "s"@
}

/// A plain durable queue.
pub open spec fn plain_queue(name: Seq<char>) -> QueueView {
    QueueView {
        name,
        durable: true,
        message_ttl_ms: None,
        dead_letter_exchange: None,
        dead_letter_routing_key: None,
    }
}

/// The durable retry queue of `delay` seconds, whose messages go back to
/// the user-deleted queue through the default exchange.
pub open spec fn retry_queue_view(delay: nat) -> QueueView {
    QueueView {
        name: retry_queue(delay),
        durable: true,
        message_ttl_ms: Some((delay * 1000) as i32),
        dead_letter_exchange: Some(""@),
        dead_letter_routing_key: Some("user_deleted_queue"@),
    }
}

/// The queues the services declare: the dead-letter queue, the
/// user-deleted queue, the click queue, then the 3, 9 and 27 second retry
/// queues.
pub open spec fn topology() -> Seq<QueueView> {
    seq![
        plain_queue("user_deleted_dlq"@),
        plain_queue("user_deleted_queue"@),
        plain_queue("click_events_queue"@),
        retry_queue_view(3),
        retry_queue_view(9),
        retry_queue_view(27),
    ]
}

/// The name of a retry queue (`user_deleted_retry_{delay}s`).
pub fn retry_queue_name(delay: u64) -> (s: String)
    ensures
        s@ == retry_queue(delay as nat),
{
    let digits = decimal_string(delay);
    let a = concat("user_deleted_retry_", digits.as_str());
    let s = concat(a.as_str(), "s");
    proof {
        reveal_strlit("user_deleted_retry_");
        reveal_strlit("s");
    }
    s
}

fn plain(name: &str) -> (q: QueueSpec)
    ensures
        q@ == plain_queue(name@),
{
    QueueSpec {
        name: name.to_owned(),
        durable: true,
        message_ttl_ms: None,
        dead_letter_exchange: None,
        dead_letter_routing_key: None,
    }
}

fn retry(delay: u64) -> (q: QueueSpec)
    requires
        delay <= 27,
    ensures
        q@ == retry_queue_view(delay as nat),
{
    proof {
        reveal_strlit("");
        reveal_strlit("user_deleted_queue");
    }
    QueueSpec {
        name: retry_queue_name(delay),
        durable: true,
        message_ttl_ms: Some((delay * 1000) as i32),
        dead_letter_exchange: Some("".to_owned()),
        dead_letter_routing_key: Some(USER_DELETED_QUEUE.to_owned()),
    }
}

/// The queues to declare at start-up, in the order they are declared.
pub fn queue_topology() -> (qs: Vec<QueueSpec>)
    ensures
        qs@.len() == topology().len(),
        forall|i: int| 0 <= i < qs@.len() ==> #[trigger] qs@[i]@ == topology()[i],
{
    let mut qs: Vec<QueueSpec> = Vec::new();
    qs.push(plain(USER_DELETED_DLQ));
    qs.push(plain(USER_DELETED_QUEUE));
    qs.push(plain(CLICK_EVENTS_QUEUE));
    qs.push(retry(3));
    qs.push(retry(9));
    qs.push(retry(27));
    proof {
        assert(qs@[0]@ == topology()[0]);
        assert(qs@[1]@ == topology()[1]);
        assert(qs@[2]@ == topology()[2]);
        assert(qs@[3]@ == topology()[3]);
        assert(qs@[4]@ == topology()[4]);
        assert(qs@[5]@ == topology()[5]);
    }
    qs
}

// ---------------------------------------------------------------------------
// Failed clean-ups
// ---------------------------------------------------------------------------

/// Where a user-deleted event goes after its clean-up failed.
pub enum DeletionRetry {
    /// To the dead-letter queue, for good.
    DeadLetter,
    /// To the retry queue `queue`, with `x-retry-count` set to `retry_count`.
    Retry { queue: String, retry_count: i32 },
}

/// The seconds a message waits before retry number `count + 1`: `3^(count + 1)`.
pub open spec fn retry_delay(count: nat) -> nat {
    pow(3, count + 1) as nat
}

/// Routes an event whose clean-up failed, by its `x-retry-count` (0 when
/// the header is absent): three retries, after 3, 9 and 27 seconds, then
/// the dead-letter queue.
pub fn route_failed_deletion(retry_count: i32) -> (r: DeletionRetry)
    requires
        retry_count >= 0,
    ensures
        retry_count >= MAX_DELETION_RETRIES ==> r is DeadLetter,
        retry_count < MAX_DELETION_RETRIES ==> (r matches DeletionRetry::Retry { queue, retry_count: n } && n
            == retry_count + 1 && queue@ == retry_queue(retry_delay(retry_count as nat))),
{
    if retry_count >= MAX_DELETION_RETRIES {
        DeletionRetry::DeadLetter
    } else {
        let delay: u64 = if retry_count == 0 {
            3
        } else if retry_count == 1 {
            9
        } else {
            27
        };
        proof {
            reveal_with_fuel(pow, 4);
        }
        DeletionRetry::Retry { queue: retry_queue_name(delay), retry_count: retry_count + 1 }
    }
}

/// Every retry routes to a declared queue that hands the message back to
/// the user-deleted queue after the retry's delay, and the retry count
/// grows by one each time, so at most three retries precede the dead-letter
/// queue.
pub proof fn lemma_retries_are_declared(count: nat)
    requires
        count < 3,
    ensures
        exists|i: int| 0 <= i < topology().len() && #[trigger] topology()[i] == retry_queue_view(retry_delay(count)),
        retry_queue_view(retry_delay(count)).dead_letter_routing_key == Some("user_deleted_queue"@),
        retry_queue_view(retry_delay(count)).message_ttl_ms == Some((retry_delay(count) * 1000) as i32),
{
    reveal_with_fuel(pow, 4);
    if count == 0 {
        assert(topology()[3] == retry_queue_view(retry_delay(count)));
    } else if count == 1 {
        assert(topology()[4] == retry_queue_view(retry_delay(count)));
    } else {
        assert(topology()[5] == retry_queue_view(retry_delay(count)));
    }
}

// ---------------------------------------------------------------------------
// Events
// ---------------------------------------------------------------------------

/// An event to publish on the default exchange.
pub struct OutgoingEvent {
    pub routing_key: String,
    pub payload: String,
}

/// The JSON body of a user-deleted event.
pub open spec fn user_deleted_json(user_id: u128) -> Seq<char> {
    "{\"user_id\":\""@ + uuid_hyphenated(user_id) + "\"}"@
}

/// The event that announces a deleted user, for the consumer to remove the
/// user's links.
pub fn user_deleted_event(user_id: u128) -> (e: OutgoingEvent)
    ensures
        e.routing_key@ == "user_deleted_queue"@,
        e.payload@ == user_deleted_json(user_id),
{
    let id = uuid_string(user_id);
    let a = concat("{\"user_id\":\"", id.as_str());
    let payload = concat(a.as_str(), "\"}");
    proof {
        reveal_strlit("{\"user_id\":\"");
        reveal_strlit("\"}");
        reveal_strlit("user_deleted_queue");
    }
    OutgoingEvent { routing_key: USER_DELETED_QUEUE.to_owned(), payload }
}

/// The event that records a click on a short code.
pub fn click_event(short_code: &str) -> (e: OutgoingEvent)
    ensures
        e.routing_key@ == "click_events_queue"@,
        e.payload@ == short_code@,
{
    proof {
        reveal_strlit("click_events_queue");
    }
    OutgoingEvent { routing_key: CLICK_EVENTS_QUEUE.to_owned(), payload: short_code.to_owned() }
}

/// Something that publishes events (a message broker).
pub trait EventPublisher {
    /// Whether `r` is an answer this publisher may give to publishing
    /// `payload` under `routing_key`.
    spec fn publishes(&self, routing_key: Seq<char>, payload: Seq<u8>, r: Result<(), String>) -> bool;

    /// Publishes `payload` under `routing_key` on the default exchange.
    fn publish(&self, routing_key: &str, payload: &[u8]) -> (r: Result<(), String>)
        ensures
            self.publishes(routing_key@, payload@, r),
    ;
}

/// A publisher that drops every event and reports success.
pub struct MockEventPublisher;

impl EventPublisher for MockEventPublisher {
    open spec fn publishes(&self, routing_key: Seq<char>, payload: Seq<u8>, r: Result<(), String>) -> bool {
        r is Ok
    }

    fn publish(&self, routing_key: &str, payload: &[u8]) -> (r: Result<(), String>)
        ensures
            r is Ok,
    {
        Ok(())
    }
}

/// Publishes an event through `publisher`: its routing key, and its payload
/// as UTF-8 bytes.
pub fn publish_event<P: EventPublisher>(publisher: &P, event: &OutgoingEvent) -> (r: Result<(), String>)
    ensures
        publisher.publishes(event.routing_key@, vstd::utf8::encode_utf8(event.payload@), r),
{
    publisher.publish(event.routing_key.as_str(), event.payload.as_str().as_bytes())
}

// ---------------------------------------------------------------------------
// Consumer names
// ---------------------------------------------------------------------------

/// The key under which the redirect cache keeps a short code's target: the
/// short code itself, which the clean-up of a deleted user's links evicts.
pub fn url_cache_key(code: &str) -> (k: String)
    ensures
        k@ == code@,
{
    code.to_owned()
}

/// The index of the last `c` in `s`, or -1 when there is none.
pub open spec fn last_index(s: Seq<char>, c: char) -> int
    decreases s.len(),
{
    if s.len() == 0 {
        -1
    } else if s.last() == c {
        s.len() - 1
    } else {
        last_index(s.drop_last(), c)
    }
}

/// The `host:port` of an AMQP URL: what follows its last `@`, up to the
/// first `/`.
pub open spec fn broker_address_of(url: Seq<char>) -> Seq<char> {
    let rest = url.skip(last_index(url, '@') + 1);
    rest.take(first_index(rest, '/'))
}

proof fn lemma_last_index(s: Seq<char>, c: char, k: int)
    requires
        -1 <= k < s.len(),
        k >= 0 ==> s[k] == c,
        forall|i: int| k < i < s.len() ==> s[i] != c,
    ensures
        last_index(s, c) == k,
    decreases s.len(),
{
    if s.len() > 0 && k < s.len() - 1 {
        lemma_last_index(s.drop_last(), c, k);
    }
}

/// The broker address the consumer announces: `amqp_url.split('@')
/// .next_back()` then `.split('/').next()`.
pub fn broker_address(amqp_url: &str) -> (a: String)
    ensures
        a@ == broker_address_of(amqp_url@),
{
    let cs = chars_of(amqp_url);
    let mut start: usize = cs.len();
    while start > 0 && cs[start - 1] != '@'
        invariant
            start <= cs@.len(),
            cs@ == amqp_url@,
            forall|i: int| start <= i < cs@.len() ==> cs@[i] != '@',
        decreases start,
    {
        start = start - 1;
    }
    proof {
        lemma_last_index(cs@, '@', start - 1);
    }
    let mut end: usize = start;
    while end < cs.len() && cs[end] != '/'
        invariant
            start <= end <= cs@.len(),
            forall|i: int| start <= i < end ==> cs@[i] != '/',
        decreases cs@.len() - end,
    {
        end = end + 1;
    }
    let ghost rest = cs@.skip(start as int);
    proof {
        assert forall|i: int| 0 <= i < end - start implies rest[i] != '/' by {
            assert(rest[i] == cs@[start + i]);
        }
        if end < cs@.len() {
            assert(rest[end - start] == cs@[end as int]);
        }
        lemma_first_index_unique(rest, '/', end - start);
    }
    let mut out: Vec<char> = Vec::new();
    let mut i: usize = start;
    while i < end
        invariant
            start <= i <= end <= cs@.len(),
            out@ == cs@.subrange(start as int, i as int),
        decreases end - i,
    {
        out.push(cs[i]);
        i = i + 1;
        proof {
            assert(out@ =~= cs@.subrange(start as int, i as int));
        }
    }
    proof {
        assert(out@ =~= rest.take(end - start));
    }
    string_of(out.as_slice())
}

} // verus!
