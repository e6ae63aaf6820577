//! What the link endpoints decide: reading page requests, validating a
//! link to shorten, resolving a short code to a redirect, filling the
//! cache, and shaping the pages and insert steps of the SQL repository.
use vstd::prelude::*;

use crate::ids::UtcTime;
use crate::text::{
    chars_of, concat, hex_lower, hex_string, parse_hex, parse_hex_i64, trim, trim_range,
    twos_complement,
};
use crate::urls::{in_scope, is_page_of, more_after, next_cursor_of, opt_string_view, page_has, Url, UrlView, UrlsPage};

verus! {

/// Links per page when the request names no limit.
pub const DEFAULT_PAGE_LIMIT: i64 = 20;

/// The query string of a page request.
pub struct PaginationParams {
    /// Opaque cursor returned by the previous page response.
    pub cursor: Option<String>,
    /// Number of items per page (default 20, max 100).
    pub limit: Option<i64>,
    /// Search query to filter URLs.
    pub search: Option<String>,
}

/// The body of a page response.
pub struct UrlsPageResponse {
    pub urls: Vec<Url>,
    pub next_cursor: Option<String>,
}

impl UrlsPageResponse {
    /// The response that carries a page.
    pub fn from_page(page: UrlsPage) -> (r: Self)
        ensures
            r.urls@ == page.urls@,
            r.next_cursor == page.next_cursor,
    {
        UrlsPageResponse { urls: page.urls, next_cursor: page.next_cursor }
    }
}

/// A page request as the repository takes it.
pub struct PageQuery {
    pub cursor: Option<i64>,
    pub limit: i64,
    pub search: Option<String>,
}

/// Why a page request is refused.
#[derive(Clone, Copy, Debug, PartialEq, Eq, Structural)]
pub enum PageRequestError {
    /// The cursor is not a hexadecimal `i64`.
    InvalidCursor,
}

impl PageRequestError {
    /// The HTTP status of the refusal.
    pub fn status(&self) -> (code: u16)
        ensures
            code == 400,
    {
        400
    }

    /// The error text of the refusal.
    pub fn message(&self) -> (s: &'static str)
        ensures
            s@ == "invalid cursor"@,
    {
        proof {
            reveal_strlit("invalid cursor");
        }
        "invalid cursor"
    }
}

/// The cursor a request names: none for a missing or empty cursor, the
/// parsed id for a hexadecimal one, and `None` (refused) otherwise.
pub open spec fn cursor_of(c: Option<Seq<char>>) -> Option<Option<i64>> {
    match c {
        None => Some(None),
        Some(s) => if s.len() == 0 {
            Some(None)
        } else {
            match parse_hex_i64(s) {
                Some(v) => Some(Some(v as i64)),
                None => None,
            }
        },
    }
}

/// Whether `s` is empty or all whitespace (`s.trim().is_empty()`).
pub fn is_blank(s: &str) -> (b: bool)
    ensures
        b == (trim(s@).len() == 0),
{
    let cs = chars_of(s);
    let (a, z) = trim_range(&cs, 0, cs.len());
    proof {
        assert(cs@.subrange(0, cs@.len() as int) =~= s@);
    }
    a == z
}

/// The search term a request keeps: the term unless it is blank.
pub open spec fn kept_search(s: Option<Seq<char>>) -> Option<Seq<char>> {
    match s {
        Some(t) => if trim(t).len() == 0 {
            None
        } else {
            Some(t)
        },
        None => None,
    }
}

/// Reads a page request: the hex cursor (empty meaning none), the limit
/// (20 when absent) and the search term (dropped when blank). A cursor
/// that is not a hexadecimal `i64` is refused.
pub fn page_query(params: PaginationParams) -> (r: Result<PageQuery, PageRequestError>)
    ensures
        r is Err <==> cursor_of(opt_string_view(params.cursor)) is None,
        r matches Ok(q) ==> {
            &&& Some(q.cursor) == cursor_of(opt_string_view(params.cursor))
            &&& q.limit == match params.limit {
                Some(l) => l,
                None => DEFAULT_PAGE_LIMIT,
            }
            &&& opt_string_view(q.search) == kept_search(opt_string_view(params.search))
        },
{
    let cursor = match params.cursor {
        None => None,
        Some(c) => {
            if c.as_str().is_empty() {
                None
            } else {
                match parse_hex(c.as_str()) {
                    Some(v) => Some(v),
                    None => {
                        return Err(PageRequestError::InvalidCursor);
                    },
                }
            }
        },
    };
    let limit = match params.limit {
        Some(l) => l,
        None => DEFAULT_PAGE_LIMIT,
    };
    let search = match params.search {
        Some(t) => {
            if is_blank(t.as_str()) {
                None
            } else {
                Some(t)
            }
        },
        None => None,
    };
    Ok(PageQuery { cursor, limit, search })
}

// ---------------------------------------------------------------------------
// Shortening
// ---------------------------------------------------------------------------

/// Whether `validator`'s `url` rule accepts the text (it parses as an
/// absolute URL); its definition is the `url` crate's parser.
pub uninterp spec fn url_rule(s: Seq<char>) -> bool;

/// Calls `validator::ValidateUrl::validate_url` on the string; the answer
/// is `url_rule` of it.
#[verifier::external_body]
fn check_url(s: &str) -> (b: bool)
    ensures
        b == url_rule(s@),
{
    validator::ValidateUrl::validate_url(&s)
}

/// A request to shorten a link.
pub struct ShortenUrlRequest {
    pub original_url: String,
    pub expires_at: Option<UtcTime>,
}

impl ShortenUrlRequest {
    /// The names of the fields that break their rule: the target must be a URL.
    pub fn validate(&self) -> (errs: Vec<&'static str>)
        ensures
            url_rule(self.original_url@) ==> errs@.len() == 0,
            !url_rule(self.original_url@) ==> errs@.len() == 1 && errs@[0]@ == "original_url"@,
    {
        let mut errs: Vec<&'static str> = Vec::new();
        if !check_url(self.original_url.as_str()) {
            proof {
                reveal_strlit("original_url");
            }
            errs.push("original_url");
        }
        errs
    }
}

/// The answer to a request to shorten a link, by what the repository did.
#[derive(Clone, Copy, Debug, PartialEq, Eq, Structural)]
pub enum ShortenReply {
    /// A link was stored or reactivated (201).
    Created,
    /// The user already has a live link for the target (409).
    AlreadyShortened,
    /// The repository failed (500).
    Failed,
}

impl ShortenReply {
    /// The reply to the repository's outcome.
    pub fn of<E>(outcome: &Result<Option<Url>, E>) -> (r: Self)
        ensures
            r == match outcome {
                Ok(Some(_)) => ShortenReply::Created,
                Ok(None) => ShortenReply::AlreadyShortened,
                Err(_) => ShortenReply::Failed,
            },
    {
        match outcome {
            Ok(Some(_)) => ShortenReply::Created,
            Ok(None) => ShortenReply::AlreadyShortened,
            Err(_) => ShortenReply::Failed,
        }
    }

    /// The HTTP status of the reply.
    pub fn status(&self) -> (code: u16)
        ensures
            code == match self {
                ShortenReply::Created => 201u16,
                ShortenReply::AlreadyShortened => 409u16,
                ShortenReply::Failed => 500u16,
            },
    {
        match self {
            ShortenReply::Created => 201,
            ShortenReply::AlreadyShortened => 409,
            ShortenReply::Failed => 500,
        }
    }
}

/// The error text of a refused shortening.
pub fn already_shortened_message() -> (s: &'static str)
    ensures
        s@ == "You have already shortened this URL"@,
{
    proof {
        reveal_strlit("You have already shortened this URL");
    }
    "You have already shortened this URL"
}

// ---------------------------------------------------------------------------
// Redirects
// ---------------------------------------------------------------------------

/// What a short code resolves to.
pub enum RedirectOutcome {
    /// A temporary redirect (307) to the target; a click is recorded.
    Redirect(String),
    /// The link has expired (410); it leaves the local cache.
    Gone,
    /// No link has this code (404).
    NotFound,
    /// The lookup failed (503).
    Unavailable,
}

impl RedirectOutcome {
    /// The HTTP status of the outcome.
    pub fn status(&self) -> (code: u16)
        ensures
            code == match self {
                RedirectOutcome::Redirect(_) => 307u16,
                RedirectOutcome::Gone => 410u16,
                RedirectOutcome::NotFound => 404u16,
                RedirectOutcome::Unavailable => 503u16,
            },
    {
        match self {
            RedirectOutcome::Redirect(_) => 307,
            RedirectOutcome::Gone => 410,
            RedirectOutcome::NotFound => 404,
            RedirectOutcome::Unavailable => 503,
        }
    }
}

/// Resolves a lookup (target and expiry, or none, or a failure) at `now`:
/// an expiry before `now` makes the link gone.
pub fn resolve_redirect<E>(lookup: Result<Option<(String, Option<UtcTime>)>, E>, now: UtcTime) -> (r: RedirectOutcome)
    ensures
        match lookup {
            Ok(Some((target, Some(exp)))) => if exp.is_before(now) {
                r is Gone
            } else {
                r matches RedirectOutcome::Redirect(t) && t@ == target@
            },
            Ok(Some((target, None))) => r matches RedirectOutcome::Redirect(t) && t@ == target@,
            Ok(None) => r is NotFound,
            Err(_) => r is Unavailable,
        },
{
    match lookup {
        Ok(Some((target, expires_at))) => {
            let gone = match expires_at {
                Some(exp) => exp.before(&now),
                None => false,
            };
            if gone {
                RedirectOutcome::Gone
            } else {
                RedirectOutcome::Redirect(target)
            }
        },
        Ok(None) => RedirectOutcome::NotFound,
        Err(_) => RedirectOutcome::Unavailable,
    }
}

/// The longest time the Redis cache keeps a target: a day.
pub const REDIS_CACHE_TTL_CAP_SECS: u64 = 86400;

/// What the cache keeps of a target read from the database.
#[derive(Clone, Copy, Debug, PartialEq, Eq, Structural)]
pub enum CacheFill {
    /// Keep it this many seconds.
    SetWithTtl(u64),
    /// Do not cache it (it has already expired).
    Skip,
}

/// The Redis entry for a target with this expiry, at `now`: kept for the
/// whole seconds left until the expiry, at most a day; a day for a link
/// without expiry; not kept once its time is up.
pub fn cache_fill(expires_at: Option<UtcTime>, now: UtcTime) -> (c: CacheFill)
    ensures
        c == match expires_at {
            None => CacheFill::SetWithTtl(86400),
            Some(e) => if e.secs > now.secs {
                CacheFill::SetWithTtl(
                    if e.secs - now.secs < 86400 {
                        (e.secs - now.secs) as u64
                    } else {
                        86400
                    },
                )
            } else {
                CacheFill::Skip
            },
        },
{
    match expires_at {
        None => CacheFill::SetWithTtl(REDIS_CACHE_TTL_CAP_SECS),
        Some(e) => {
            if e.secs <= now.secs {
                CacheFill::Skip
            } else if now.secs <= i64::MAX - 86400 && e.secs >= now.secs + 86400 {
                CacheFill::SetWithTtl(REDIS_CACHE_TTL_CAP_SECS)
            } else {
                let ttl = e.secs - now.secs;
                CacheFill::SetWithTtl(ttl as u64)
            }
        },
    }
}

/// How long the single-service cache keeps a resolved target: a day.
pub const SINGLE_SERVICE_CACHE_TTL_SECS: u64 = 86400;

/// Resolves a lookup of the single-service layout, which keeps no expiry:
/// a found target redirects, a missing one is 404, a failure 500.
pub fn single_service_redirect_status<E>(lookup: &Result<Option<String>, E>) -> (code: u16)
    ensures
        code == match lookup {
            Ok(Some(_)) => 307u16,
            Ok(None) => 404u16,
            Err(_) => 500u16,
        },
{
    match lookup {
        Ok(Some(_)) => 307,
        Ok(None) => 404,
        Err(_) => 500,
    }
}

/// The answer to a delete: 204 when the link was deleted (its code then
/// leaves the cache), 404 when the user owns no such link, 500 on failure.
pub fn delete_status<E>(outcome: &Result<Option<String>, E>) -> (code: u16)
    ensures
        code == match outcome {
            Ok(Some(_)) => 204u16,
            Ok(None) => 404u16,
            Err(_) => 500u16,
        },
{
    match outcome {
        Ok(Some(_)) => 204,
        Ok(None) => 404,
        Err(_) => 500,
    }
}

/// The answer to a page request: 200 with the page, 500 on failure.
pub fn page_status<T, E>(outcome: &Result<T, E>) -> (code: u16)
    ensures
        code == if outcome is Ok {
            200u16
        } else {
            500u16
        },
{
    match outcome {
        Ok(_) => 200,
        Err(_) => 500,
    }
}

// ---------------------------------------------------------------------------
// SQL repository steps
// ---------------------------------------------------------------------------

/// The page size the SQL repository serves: the request's, within 1..=100.
pub open spec fn clamped_limit(limit: i64) -> i64 {
    if limit < 1 {
        1
    } else if limit > 100 {
        100
    } else {
        limit
    }
}

/// `limit.clamp(1, 100)`.
pub fn clamp_page_limit(limit: i64) -> (r: i64)
    ensures
        r == clamped_limit(limit),
{
    if limit < 1 {
        1
    } else if limit > 100 {
        100
    } else {
        limit
    }
}

/// The `ILIKE` pattern of a search term: `%term%`.
pub fn search_pattern(search: Option<String>) -> (r: Option<String>)
    ensures
        match search {
            Some(s) => r matches Some(p) && p@ == seq!['%'] + s@ + seq!['%'],
            None => r is None,
        },
{
    match search {
        Some(s) => {
            let a = concat("%", s.as_str());
            let p = concat(a.as_str(), "%");
            proof {
                reveal_strlit("%");
                assert(p@ =~= seq!['%'] + s@ + seq!['%']);
            }
            Some(p)
        },
        None => None,
    }
}

/// Turns the rows the SQL query gave (at most one more than the page size,
/// newest first) into a page: a row beyond the page size means there is a
/// next page; it is dropped, and the cursor is the last kept row's hex id.
pub fn finish_page(rows: Vec<Url>, limit: i64) -> (p: UrlsPage)
    requires
        1 <= limit <= 100,
    ensures
        rows@.len() > limit ==> p.urls@ == rows@.drop_last(),
        rows@.len() <= limit ==> p.urls@ == rows@,
        opt_string_view(p.next_cursor) == next_cursor_of(p.urls@, rows@.len() > limit),
{
    let has_next = rows.len() > limit as usize;
    let mut urls = rows;
    if has_next {
        urls.pop();
    }
    let next_cursor = if has_next && urls.len() > 0 {
        Some(hex_string(urls[urls.len() - 1].url_id))
    } else {
        None
    };
    UrlsPage { urls, next_cursor }
}

/// The rows a page query answers with make, once finished, a page of the
/// links it ranges over (`m`; for a search, the links the search matches):
/// when those rows are the newest in-scope links, at most one more than the
/// page size, and all of them when fewer, the finished page is a page of
/// `m` that a next page can follow, and a page without a next cursor leaves
/// no in-scope link out. With `lemma_page_walk` a walk over such pages
/// lists every such link once, newest first.
pub proof fn lemma_finished_page(
    m: Map<i64, UrlView>,
    rows: Seq<Url>,
    limit: int,
    user_id: u128,
    cursor: Option<i64>,
    urls: Seq<Url>,
)
    requires
        1 <= limit,
        is_page_of(m, rows, user_id, cursor),
        rows.len() <= limit + 1,
        rows.len() <= limit ==> !more_after(m, rows, user_id, cursor),
        rows.len() > limit ==> urls == rows.drop_last(),
        rows.len() <= limit ==> urls == rows,
    ensures
        is_page_of(m, urls, user_id, cursor),
        next_cursor_of(urls, rows.len() > limit) is None ==> !more_after(m, urls, user_id, cursor),
        next_cursor_of(urls, rows.len() > limit) is Some ==> urls.len() > 0,
{
    if rows.len() > limit {
        let n = urls.len();
        assert(n >= 1);
        assert forall|id: i64| #[trigger] m.dom().contains(id) && in_scope(m[id], user_id, cursor) && !page_has(urls, id)
            implies id < urls.last().url_id by {
            assert(rows[n - 1] == urls[n - 1]);
            if page_has(rows, id) {
                let a = choose|a: int| 0 <= a < rows.len() && rows[a].url_id == id;
                if a < n {
                    assert(urls[a] == rows[a]);
                    assert(page_has(urls, id));
                }
                assert(a == n);
            }
        }
        assert forall|a: int| 0 <= a < urls.len() implies m.dom().contains(#[trigger] urls[a].url_id)
            && m[urls[a].url_id] == urls[a]@ && in_scope(urls[a]@, user_id, cursor) by {
            assert(urls[a] == rows[a]);
        }
        assert forall|a: int, b: int| 0 <= a < b < urls.len() implies urls[a].url_id > urls[b].url_id by {
            assert(urls[a] == rows[a] && urls[b] == rows[b]);
        }
    }
}

/// What the SQL repository does with the user's existing link for a target.
#[derive(Clone, Copy, Debug, PartialEq, Eq, Structural)]
pub enum ExistingLink {
    /// None exists: insert a new row.
    Insert,
    /// It has expired: give row `0` the new expiry.
    Reactivate(i64),
    /// It is live: refuse.
    AlreadyShortened,
}

/// Decides on the user's existing link (its row id and expiry) for the
/// target, at `now`.
pub fn decide_existing(existing: Option<(i64, Option<UtcTime>)>, now: UtcTime) -> (d: ExistingLink)
    ensures
        d == match existing {
            None => ExistingLink::Insert,
            Some((id, Some(exp))) => if exp.is_before(now) {
                ExistingLink::Reactivate(id)
            } else {
                ExistingLink::AlreadyShortened
            },
            Some((_, None)) => ExistingLink::AlreadyShortened,
        },
{
    match existing {
        None => ExistingLink::Insert,
        Some((id, Some(exp))) => {
            if exp.before(&now) {
                ExistingLink::Reactivate(id)
            } else {
                ExistingLink::AlreadyShortened
            }
        },
        Some((_, None)) => ExistingLink::AlreadyShortened,
    }
}

/// Whether a database error code is PostgreSQL's unique violation
/// (`23505`), which an insert racing another for the same target meets.
pub fn is_unique_violation(code: Option<&str>) -> (b: bool)
    ensures
        b == match code {
            Some(c) => c@ == "23505"@,
            None => false,
        },
{
    match code {
        Some(c) => crate::text::eq_str(c, "23505"),
        None => false,
    }
}

} // verus!
