//! Short links: the link record, an in-memory link repository with
//! shortening, resolution, cursor pagination and deletion, and the
//! decisions the link handlers make.
use vstd::prelude::*;

use crate::ids::{base62, lemma_base62_injective, short_code_for, widen_to_u128, UtcTime};
use crate::text::{
    chars_of, concat, hex_lower, hex_string, parse_hex, parse_hex_i64, trim, trim_range,
    twos_complement,
};

verus! {

/// A shortened link.
pub struct Url {
    pub url_id: i64,
    pub short_code: String,
    pub original_url: String,
    pub user_id: u128,
    pub click_count: i64,
    pub expires_at: Option<UtcTime>,
    pub created_at: UtcTime,
    pub updated_at: UtcTime,
}

/// The values of a [`Url`].
pub struct UrlView {
    pub url_id: i64,
    pub short_code: Seq<char>,
    pub original_url: Seq<char>,
    pub user_id: u128,
    pub click_count: i64,
    pub expires_at: Option<UtcTime>,
    pub created_at: UtcTime,
    pub updated_at: UtcTime,
}

impl View for Url {
    type V = UrlView;

    open spec fn view(&self) -> UrlView {
        UrlView {
            url_id: self.url_id,
            short_code: self.short_code@,
            original_url: self.original_url@,
            user_id: self.user_id,
            click_count: self.click_count,
            expires_at: self.expires_at,
            created_at: self.created_at,
            updated_at: self.updated_at,
        }
    }
}

impl Url {
    /// A copy of the link.
    pub fn duplicate(&self) -> (u: Url)
        ensures
            u@ == self@,
    {
        Url {
            url_id: self.url_id,
            short_code: self.short_code.clone(),
            original_url: self.original_url.clone(),
            user_id: self.user_id,
            click_count: self.click_count,
            expires_at: self.expires_at,
            created_at: self.created_at,
            updated_at: self.updated_at,
        }
    }
}

/// One page of a user's links.
pub struct UrlsPage {
    pub urls: Vec<Url>,
    /// Hex-encoded `url_id` of the last item; `None` means no further pages.
    pub next_cursor: Option<String>,
}

/// Whether a link has an expiry that lies before `now`.
pub open spec fn expired_at(u: UrlView, now: UtcTime) -> bool {
    match u.expires_at {
        Some(e) => e.is_before(now),
        None => false,
    }
}

// ---------------------------------------------------------------------------
// In-memory repository
// ---------------------------------------------------------------------------

/// A link repository held in memory; ids are handed out from 1 upwards.
pub struct MockUrlRepo {
    urls: Vec<Url>,
    next_id: i64,
}

/// Whether some link in `s` has id `id`.
pub open spec fn has_url_id(s: Seq<Url>, id: i64) -> bool {
    exists|i: int| 0 <= i < s.len() && s[i].url_id == id
}

/// The record a sequence of links keeps for `id`.
pub open spec fn url_record_of(s: Seq<Url>, id: i64) -> UrlView {
    s[choose|i: int| 0 <= i < s.len() && s[i].url_id == id]@
}

impl View for MockUrlRepo {
    type V = Map<i64, UrlView>;

    closed spec fn view(&self) -> Map<i64, UrlView> {
        Map::new(|id: i64| has_url_id(self.urls@, id), |id: i64| url_record_of(self.urls@, id))
    }
}

/// What shortening `original_url` for `user_id` with `expires_at` at `now`
/// does to a repository (`old` before, `new` after) and answers (`r`): a
/// live link of the user for the target makes it a no-op (`None`); an
/// expired one gets the new expiry; otherwise a link with the next id and
/// its base62 code is stored.
pub open spec fn shortened(
    old: MockUrlRepo,
    new: MockUrlRepo,
    r: Option<Url>,
    original_url: Seq<char>,
    user_id: u128,
    expires_at: Option<UtcTime>,
    now: UtcTime,
) -> bool {
    &&& (exists|id: i64| #[trigger] old@.dom().contains(id) && old@[id].original_url == original_url
        && old@[id].user_id == user_id && !expired_at(old@[id], now)) <==> r is None
    &&& r is None ==> new@ == old@ && new.next_id_spec() == old.next_id_spec()
    &&& r matches Some(u) ==> {
        &&& new@ == old@.insert(u.url_id, u@)
        &&& u.original_url@ == original_url
        &&& u.user_id == user_id
        &&& u.expires_at == expires_at
        &&& if old@.dom().contains(u.url_id) {
            &&& expired_at(old@[u.url_id], now)
            &&& old@[u.url_id].original_url == original_url
            &&& old@[u.url_id].user_id == user_id
            &&& u@ == (UrlView { expires_at: expires_at, ..old@[u.url_id] })
            &&& new.next_id_spec() == old.next_id_spec()
        } else {
            &&& u.url_id == old.next_id_spec()
            &&& u.short_code@ == base62(u.url_id as nat)
            &&& u.click_count == 0
            &&& u.created_at == now && u.updated_at == now
            &&& new.next_id_spec() == old.next_id_spec() + 1
            &&& forall|id: i64| #[trigger] old@.dom().contains(id) ==> !(old@[id].original_url == original_url
                && old@[id].user_id == user_id)
        }
    }
}

impl MockUrlRepo {
    /// Ids are unique and below the next id to hand out; each user has at
    /// most one link per target.
    pub closed spec fn wf(&self) -> bool {
        &&& 1 <= self.next_id
        &&& forall|i: int, j: int|
            0 <= i < self.urls@.len() && 0 <= j < self.urls@.len() && i != j ==> self.urls@[i].url_id
                != self.urls@[j].url_id
        &&& forall|i: int, j: int|
            0 <= i < self.urls@.len() && 0 <= j < self.urls@.len() && i != j ==> !(
            self.urls@[i].original_url@ == self.urls@[j].original_url@ && self.urls@[i].user_id
                == self.urls@[j].user_id)
        &&& forall|i: int| 0 <= i < self.urls@.len() ==> 1 <= #[trigger] self.urls@[i].url_id < self.next_id
        &&& forall|i: int| 0 <= i < self.urls@.len() ==> #[trigger] self.urls@[i].short_code@ == base62(
            self.urls@[i].url_id as nat)
    }

    /// The id the next new link gets.
    pub closed spec fn next_id_spec(&self) -> i64 {
        self.next_id
    }

    proof fn lemma_record_at(&self, i: int)
        requires
            self.wf(),
            0 <= i < self.urls@.len(),
        ensures
            self@.dom().contains(self.urls@[i].url_id),
            self@[self.urls@[i].url_id] == self.urls@[i]@,
    {
        let id = self.urls@[i].url_id;
        assert(has_url_id(self.urls@, id));
        let j = choose|j: int| 0 <= j < self.urls@.len() && self.urls@[j].url_id == id;
        assert(j == i);
    }

    /// A wf repository keys each link by its id.
    pub proof fn lemma_keyed_by_id(&self)
        requires
            self.wf(),
        ensures
            forall|id: i64| #[trigger] self@.dom().contains(id) ==> self@[id].url_id == id,
    {
        assert forall|id: i64| #[trigger] self@.dom().contains(id) implies self@[id].url_id == id by {
            let j = self.lemma_index_of_key(id);
        }
    }

    /// A wf repository's short codes identify its links.
    pub proof fn lemma_short_codes_unique(&self, id: i64)
        requires
            self.wf(),
            self@.dom().contains(id),
        ensures
            forall|k: i64| #[trigger] self@.dom().contains(k) && self@[k].short_code == self@[id].short_code ==> k == id,
    {
        assert forall|k: i64| #[trigger] self@.dom().contains(k) && self@[k].short_code == self@[id].short_code implies k == id by {
            let a = self.lemma_index_of_key(k);
            let b = self.lemma_index_of_key(id);
            lemma_base62_injective(k as nat, id as nat);
        }
    }

    proof fn lemma_index_of_key(&self, id: i64) -> (j: int)
        requires
            self.wf(),
            self@.dom().contains(id),
        ensures
            0 <= j < self.urls@.len(),
            self.urls@[j].url_id == id,
            self@[id] == self.urls@[j]@,
    {
        let j = choose|j: int| 0 <= j < self.urls@.len() && self.urls@[j].url_id == id;
        self.lemma_record_at(j);
        j
    }

    /// An empty repository whose first link gets id 1.
    pub fn new() -> (r: Self)
        ensures
            r.wf(),
            r@ == Map::<i64, UrlView>::empty(),
            r.next_id_spec() == 1,
    {
        let r = MockUrlRepo { urls: Vec::new(), next_id: 1 };
        assert(r@ =~= Map::<i64, UrlView>::empty());
        r
    }

    fn find_link(&self, original_url: &str, user_id: u128) -> (r: Option<usize>)
        requires
            self.wf(),
        ensures
            r matches Some(i) ==> i < self.urls@.len() && self.urls@[i as int].original_url@
                == original_url@ && self.urls@[i as int].user_id == user_id,
            r is None ==> forall|id: i64| #[trigger] self@.dom().contains(id) ==> !(self@[id].original_url
                == original_url@ && self@[id].user_id == user_id),
    {
        let mut i: usize = 0;
        while i < self.urls.len()
            invariant
                self.wf(),
                i <= self.urls@.len(),
                forall|j: int| 0 <= j < i ==> !(self.urls@[j].original_url@ == original_url@ && self.urls@[j].user_id == user_id),
            decreases self.urls@.len() - i,
        {
            if self.urls[i].user_id == user_id && crate::text::eq_str(self.urls[i].original_url.as_str(), original_url) {
                return Some(i);
            }
            i = i + 1;
        }
        proof {
            assert forall|id: i64| #[trigger] self@.dom().contains(id) implies !(self@[id].original_url
                == original_url@ && self@[id].user_id == user_id) by {
                let j = self.lemma_index_of_key(id);
            }
        }
        None
    }

    /// Shortens `original_url` for `user_id` at time `now`. A user has one
    /// link per target: a live one makes this a no-op (`None`); an expired
    /// one is reactivated with the new expiry; otherwise a link with the next
    /// id and its base62 short code is stored.
    pub fn add_shorten_url_at(
        &mut self,
        original_url: &str,
        user_id: u128,
        expires_at: Option<UtcTime>,
        now: UtcTime,
    ) -> (r: Option<Url>)
        requires
            old(self).wf(),
            old(self).next_id_spec() < i64::MAX,
        ensures
            final(self).wf(),
            shortened(*old(self), *final(self), r, original_url@, user_id, expires_at, now),
    {
        match self.find_link(original_url, user_id) {
            Some(i) => {
                proof {
                    self.lemma_record_at(i as int);
                    assert forall|id: i64| #[trigger] old(self)@.dom().contains(id) && old(self)@[id].original_url == original_url@
                        && old(self)@[id].user_id == user_id implies id == self.urls@[i as int].url_id by {
                        let j = self.lemma_index_of_key(id);
                    }
                }
                let expired = match self.urls[i].expires_at {
                    Some(e) => e.before(&now),
                    None => false,
                };
                if expired {
                    let mut updated = self.urls[i].duplicate();
                    updated.expires_at = expires_at;
                    let copy = updated.duplicate();
                    self.replace_at(i, copy);
                    Some(updated)
                } else {
                    None
                }
            },
            None => {
                proof {
                    assert forall|i: int| 0 <= i < self.urls@.len() implies !(#[trigger] self.urls@[i].original_url@ == original_url@
                        && self.urls@[i].user_id == user_id) by {
                        self.lemma_record_at(i);
                    }
                }
                let id = self.next_id;
                self.next_id = self.next_id + 1;
                let url = Url {
                    url_id: id,
                    short_code: short_code_for(id),
                    original_url: original_url.to_owned(),
                    user_id,
                    click_count: 0,
                    expires_at,
                    created_at: now,
                    updated_at: now,
                };
                let copy = url.duplicate();
                self.push_new(copy);
                Some(url)
            },
        }
    }

    /// Replaces the link at position `i` by one with the same id, target and owner.
    fn replace_at(&mut self, i: usize, url: Url)
        requires
            old(self).wf(),
            i < old(self).urls@.len(),
            url.url_id == old(self).urls@[i as int].url_id,
            url.original_url@ == old(self).urls@[i as int].original_url@,
            url.user_id == old(self).urls@[i as int].user_id,
            url.short_code@ == old(self).urls@[i as int].short_code@,
        ensures
            final(self).wf(),
            final(self).next_id == old(self).next_id,
            final(self)@ == old(self)@.insert(url.url_id, url@),
    {
        let ghost id = url.url_id;
        let ghost uv = url@;
        let ghost before = self.urls@;
        self.urls.set(i, url);
        proof {
            assert forall|a: int, b: int| 0 <= a < self.urls@.len() && 0 <= b < self.urls@.len() && a != b implies !(
                self.urls@[a].original_url@ == self.urls@[b].original_url@ && self.urls@[a].user_id
                    == self.urls@[b].user_id) by {
                assert(self.urls@[a].original_url@ == before[a].original_url@ && self.urls@[a].user_id == before[a].user_id);
                assert(self.urls@[b].original_url@ == before[b].original_url@ && self.urls@[b].user_id == before[b].user_id);
            }
            assert forall|a: int, b: int| 0 <= a < self.urls@.len() && 0 <= b < self.urls@.len() && a != b implies self.urls@[a].url_id
                != self.urls@[b].url_id by {
                assert(self.urls@[a].url_id == before[a].url_id);
                assert(self.urls@[b].url_id == before[b].url_id);
            }
            assert forall|a: int| 0 <= a < self.urls@.len() implies 1 <= #[trigger] self.urls@[a].url_id < self.next_id by {
                assert(self.urls@[a].url_id == before[a].url_id);
            }
            assert forall|a: int| 0 <= a < self.urls@.len() implies #[trigger] self.urls@[a].short_code@ == base62(
                self.urls@[a].url_id as nat) by {
                assert(self.urls@[a].url_id == before[a].url_id);
                assert(self.urls@[a].short_code@ == before[a].short_code@);
            }
            assert forall|k: i64| #[trigger] self@.dom().contains(k) == old(self)@.insert(id, uv).dom().contains(k) by {
                if has_url_id(before, k) {
                    let j = choose|j: int| 0 <= j < before.len() && before[j].url_id == k;
                    assert(self.urls@[j].url_id == k);
                }
                if has_url_id(self.urls@, k) {
                    let j = choose|j: int| 0 <= j < self.urls@.len() && self.urls@[j].url_id == k;
                    assert(before[j].url_id == k);
                }
                if k == id {
                    assert(self.urls@[i as int].url_id == k);
                }
            }
            assert forall|k: i64| self@.dom().contains(k) implies self@[k] == old(self)@.insert(id, uv)[k] by {
                let j = choose|j: int| 0 <= j < self.urls@.len() && self.urls@[j].url_id == k;
                self.lemma_record_at(j);
                if k != id {
                    assert(before[j].url_id == k);
                    old(self).lemma_record_at(j);
                }
            }
            assert(self@ =~= old(self)@.insert(id, uv));
        }
    }

    /// Appends a link whose id is the previous next id and whose target is
    /// new for its owner.
    fn push_new(&mut self, url: Url)
        requires
            1 <= old(self).next_id,
            url.url_id + 1 == old(self).next_id,
            1 <= url.url_id,
            forall|i: int, j: int|
                0 <= i < old(self).urls@.len() && 0 <= j < old(self).urls@.len() && i != j ==> old(self).urls@[i].url_id
                    != old(self).urls@[j].url_id,
            forall|i: int, j: int|
                0 <= i < old(self).urls@.len() && 0 <= j < old(self).urls@.len() && i != j ==> !(
                old(self).urls@[i].original_url@ == old(self).urls@[j].original_url@ && old(self).urls@[i].user_id
                    == old(self).urls@[j].user_id),
            forall|i: int| 0 <= i < old(self).urls@.len() ==> 1 <= #[trigger] old(self).urls@[i].url_id < url.url_id,
            forall|i: int| 0 <= i < old(self).urls@.len() ==> #[trigger] old(self).urls@[i].short_code@ == base62(
                old(self).urls@[i].url_id as nat),
            url.short_code@ == base62(url.url_id as nat),
            forall|i: int| 0 <= i < old(self).urls@.len() ==> !(#[trigger] old(self).urls@[i].original_url@ == url.original_url@
                && old(self).urls@[i].user_id == url.user_id),
        ensures
            final(self).wf(),
            final(self).next_id == old(self).next_id,
            final(self)@ == old(self)@.insert(url.url_id, url@),
    {
        let ghost id = url.url_id;
        let ghost uv = url@;
        let ghost before = self.urls@;
        let ghost n = before.len() as int;
        self.urls.push(url);
        proof {
            assert(!has_url_id(before, id));
            assert forall|a: int| 0 <= a < self.urls@.len() implies 1 <= #[trigger] self.urls@[a].url_id < self.next_id by {
                if a < n {
                    assert(self.urls@[a] == before[a]);
                }
            }
            assert forall|a: int| 0 <= a < self.urls@.len() implies #[trigger] self.urls@[a].short_code@ == base62(
                self.urls@[a].url_id as nat) by {
                if a < n {
                    assert(self.urls@[a] == before[a]);
                }
            }
            assert forall|a: int, b: int| 0 <= a < self.urls@.len() && 0 <= b < self.urls@.len() && a != b implies self.urls@[a].url_id
                != self.urls@[b].url_id by {
                if a < n && b < n {
                    assert(self.urls@[a] == before[a]);
                    assert(self.urls@[b] == before[b]);
                } else if a < n {
                    assert(self.urls@[a] == before[a]);
                } else {
                    assert(self.urls@[b] == before[b]);
                }
            }
            assert forall|a: int, b: int| 0 <= a < self.urls@.len() && 0 <= b < self.urls@.len() && a != b implies !(
                self.urls@[a].original_url@ == self.urls@[b].original_url@ && self.urls@[a].user_id
                    == self.urls@[b].user_id) by {
                if a < n && b < n {
                    assert(self.urls@[a] == before[a]);
                    assert(self.urls@[b] == before[b]);
                } else if a < n {
                    assert(self.urls@[a] == before[a]);
                } else {
                    assert(self.urls@[b] == before[b]);
                }
            }
            assert forall|k: i64| #[trigger] self@.dom().contains(k) == old(self)@.insert(id, uv).dom().contains(k) by {
                if has_url_id(before, k) {
                    let j = choose|j: int| 0 <= j < before.len() && before[j].url_id == k;
                    assert(self.urls@[j].url_id == k);
                }
                if has_url_id(self.urls@, k) {
                    let j = choose|j: int| 0 <= j < self.urls@.len() && self.urls@[j].url_id == k;
                    if j != n {
                        assert(before[j].url_id == k);
                    }
                }
                if k == id {
                    assert(self.urls@[n].url_id == k);
                }
            }
            assert forall|k: i64| self@.dom().contains(k) implies self@[k] == old(self)@.insert(id, uv)[k] by {
                let j = choose|j: int| 0 <= j < self.urls@.len() && self.urls@[j].url_id == k;
                self.lemma_record_at(j);
                if j != n {
                    assert(before[j] == self.urls@[j]);
                    old(self).lemma_record_at(j);
                }
            }
            assert(self@ =~= old(self)@.insert(id, uv));
        }
    }

    /// Shortens `original_url` for `user_id` at the current time: as
    /// `add_shorten_url_at` at some instant (the clock's).
    pub fn add_shorten_url(&mut self, original_url: &str, user_id: u128, expires_at: Option<UtcTime>) -> (r: Option<Url>)
        requires
            old(self).wf(),
            old(self).next_id_spec() < i64::MAX,
        ensures
            final(self).wf(),
            exists|now: UtcTime| shortened(*old(self), *final(self), r, original_url@, user_id, expires_at, now),
            r matches Some(u) ==> final(self)@ == old(self)@.insert(u.url_id, u@) && u.original_url@ == original_url@
                && u.user_id == user_id && u.expires_at == expires_at,
            r is None ==> final(self)@ == old(self)@,
            (forall|id: i64| #[trigger] old(self)@.dom().contains(id) ==> !(old(self)@[id].original_url
                == original_url@ && old(self)@[id].user_id == user_id)) ==> r is Some,
            r is None ==> exists|id: i64| #[trigger] old(self)@.dom().contains(id) && old(self)@[id].original_url
                == original_url@ && old(self)@[id].user_id == user_id,
    {
        let now = crate::ids::now();
        let r = self.add_shorten_url_at(original_url, user_id, expires_at, now);
        proof {
            assert(shortened(*old(self), *self, r, original_url@, user_id, expires_at, now));
        }
        r
    }

    /// The target and expiry of the link with this short code, if any.
    pub fn get_original_url(&self, short_code: &str) -> (r: Option<(String, Option<UtcTime>)>)
        requires
            self.wf(),
        ensures
            r is Some <==> exists|id: i64| #[trigger] self@.dom().contains(id) && self@[id].short_code == short_code@,
            r matches Some((o, e)) ==> forall|id: i64| #[trigger] self@.dom().contains(id) && self@[id].short_code
                == short_code@ ==> self@[id].original_url == o@ && self@[id].expires_at == e,
    {
        let mut i: usize = 0;
        while i < self.urls.len()
            invariant
                self.wf(),
                i <= self.urls@.len(),
                forall|j: int| 0 <= j < i ==> self.urls@[j].short_code@ != short_code@,
            decreases self.urls@.len() - i,
        {
            if crate::text::eq_str(self.urls[i].short_code.as_str(), short_code) {
                proof {
                    self.lemma_record_at(i as int);
                    self.lemma_short_codes_unique(self.urls@[i as int].url_id);
                }
                return Some((self.urls[i].original_url.clone(), self.urls[i].expires_at));
            }
            i = i + 1;
        }
        proof {
            assert forall|id: i64| #[trigger] self@.dom().contains(id) implies self@[id].short_code != short_code@ by {
                let j = self.lemma_index_of_key(id);
            }
        }
        None
    }

    /// Deletes link `url_id` when `user_id` owns it, giving back its short
    /// code; otherwise nothing changes.
    pub fn delete_url(&mut self, url_id: i64, user_id: u128) -> (r: Option<String>)
        requires
            old(self).wf(),
        ensures
            final(self).wf(),
            r is Some <==> old(self)@.dom().contains(url_id) && old(self)@[url_id].user_id == user_id,
            r matches Some(c) ==> c@ == old(self)@[url_id].short_code && final(self)@ == old(self)@.remove(url_id),
            r is None ==> final(self)@ == old(self)@,
    {
        let mut i: usize = 0;
        while i < self.urls.len()
            invariant
                self.wf(),
                self.urls@ == old(self).urls@,
                self.next_id == old(self).next_id,
                i <= self.urls@.len(),
                forall|j: int| 0 <= j < i ==> self.urls@[j].url_id != url_id,
            decreases self.urls@.len() - i,
        {
            if self.urls[i].url_id == url_id {
                proof {
                    self.lemma_record_at(i as int);
                }
                if self.urls[i].user_id != user_id {
                    return None;
                }
                let code = self.urls[i].short_code.clone();
                self.remove_at(i);
                return Some(code);
            }
            i = i + 1;
        }
        proof {
            if old(self)@.dom().contains(url_id) {
                let j = self.lemma_index_of_key(url_id);
            }
        }
        None
    }

    fn remove_at(&mut self, i: usize)
        requires
            old(self).wf(),
            i < old(self).urls@.len(),
        ensures
            final(self).wf(),
            final(self).next_id == old(self).next_id,
            final(self)@ == old(self)@.remove(old(self).urls@[i as int].url_id),
    {
        let ghost before = self.urls@;
        let ghost id = before[i as int].url_id;
        self.urls.remove(i);
        proof {
            let after = self.urls@;
            assert forall|a: int| 0 <= a < after.len() implies #[trigger] after[a] == before[if a < i { a } else { a + 1 }] by {}
            assert forall|k: i64| #[trigger] self@.dom().contains(k) == old(self)@.remove(id).dom().contains(k) by {
                if has_url_id(before, k) && k != id {
                    let j = choose|j: int| 0 <= j < before.len() && before[j].url_id == k;
                    assert(j != i);
                    let a = if j < i { j } else { j - 1 };
                    assert(after[a].url_id == k);
                }
                if has_url_id(after, k) {
                    let a = choose|a: int| 0 <= a < after.len() && after[a].url_id == k;
                    let j = if a < i { a } else { a + 1 };
                    assert(before[j].url_id == k);
                    assert(j != i);
                }
            }
            assert forall|a: int, b: int| 0 <= a < after.len() && 0 <= b < after.len() && a != b implies after[a].url_id != after[b].url_id by {
                let ja = if a < i { a } else { a + 1 };
                let jb = if b < i { b } else { b + 1 };
                assert(after[a] == before[ja]);
                assert(after[b] == before[jb]);
            }
            assert forall|a: int, b: int| 0 <= a < after.len() && 0 <= b < after.len() && a != b implies !(
                after[a].original_url@ == after[b].original_url@ && after[a].user_id == after[b].user_id) by {
                let ja = if a < i { a } else { a + 1 };
                let jb = if b < i { b } else { b + 1 };
                assert(after[a] == before[ja]);
                assert(after[b] == before[jb]);
            }
            assert forall|a: int| 0 <= a < after.len() implies 1 <= #[trigger] after[a].url_id < self.next_id by {
                let ja = if a < i { a } else { a + 1 };
                assert(after[a] == before[ja]);
            }
            assert forall|k: i64| self@.dom().contains(k) implies self@[k] == old(self)@.remove(id)[k] by {
                let a = choose|a: int| 0 <= a < after.len() && after[a].url_id == k;
                self.lemma_record_at(a);
                let j = if a < i { a } else { a + 1 };
                assert(before[j] == after[a]);
                old(self).lemma_record_at(j);
            }
            assert(self@ =~= old(self)@.remove(id));
        }
    }

    /// The repository is always reachable.
    pub fn ping(&self) -> (r: Result<(), ()>)
        ensures
            r is Ok,
    {
        Ok(())
    }
}

// ---------------------------------------------------------------------------
// Pagination
// ---------------------------------------------------------------------------

/// Whether a link belongs to a page request: owned by `user_id` and, when a
/// cursor is given, with an id below it.
pub open spec fn in_scope(u: UrlView, user_id: u128, cursor: Option<i64>) -> bool {
    u.user_id == user_id && match cursor {
        Some(c) => u.url_id < c,
        None => true,
    }
}

/// Whether some link of `page` has id `id`.
pub open spec fn page_has(page: Seq<Url>, id: i64) -> bool {
    exists|a: int| 0 <= a < page.len() && page[a].url_id == id
}

/// Whether the repository holds an in-scope link that the page leaves out.
pub open spec fn more_after(m: Map<i64, UrlView>, page: Seq<Url>, user_id: u128, cursor: Option<i64>) -> bool {
    exists|id: i64| #[trigger] m.dom().contains(id) && in_scope(m[id], user_id, cursor) && !page_has(page, id)
}

/// The cursor of the next page: the hex id of the page's last link when
/// there are more links and the page is not empty.
pub open spec fn next_cursor_of(page: Seq<Url>, has_next: bool) -> Option<Seq<char>> {
    if has_next && page.len() > 0 {
        Some(hex_lower(twos_complement(page.last().url_id as int)))
    } else {
        None
    }
}

/// Whether `page` is a valid first page of the in-scope links of `m`:
/// links of the repository, in scope, newest (highest id) first, and every
/// in-scope link left out is older than the page's last link.
pub open spec fn is_page_of(m: Map<i64, UrlView>, page: Seq<Url>, user_id: u128, cursor: Option<i64>) -> bool {
    &&& forall|a: int, b: int| 0 <= a < b < page.len() ==> page[a].url_id > page[b].url_id
    &&& forall|a: int| 0 <= a < page.len() ==> m.dom().contains(#[trigger] page[a].url_id)
        && m[page[a].url_id] == page[a]@ && in_scope(page[a]@, user_id, cursor)
    &&& forall|id: i64| #[trigger] m.dom().contains(id) && in_scope(m[id], user_id, cursor) && !page_has(page, id)
        ==> (page.len() > 0 ==> id < page.last().url_id)
}

impl MockUrlRepo {
    /// The position of the newest link of `user_id` with an id below `bound`.
    fn newest_below(&self, user_id: u128, bound: Option<i64>) -> (r: Option<usize>)
        requires
            self.wf(),
        ensures
            r matches Some(i) ==> i < self.urls@.len() && in_scope(self.urls@[i as int]@, user_id, bound)
                && forall|id: i64| #[trigger] self@.dom().contains(id) && in_scope(self@[id], user_id, bound) ==> id
                <= self.urls@[i as int].url_id,
            r is None ==> forall|id: i64| #[trigger] self@.dom().contains(id) ==> !in_scope(self@[id], user_id, bound),
    {
        let mut best: Option<usize> = None;
        let mut i: usize = 0;
        while i < self.urls.len()
            invariant
                self.wf(),
                i <= self.urls@.len(),
                best matches Some(b) ==> b < i && in_scope(self.urls@[b as int]@, user_id, bound),
                forall|j: int| 0 <= j < i && in_scope(#[trigger] self.urls@[j]@, user_id, bound) ==> (best matches Some(b)
                    && self.urls@[j].url_id <= self.urls@[b as int].url_id),
            decreases self.urls@.len() - i,
        {
            let u = &self.urls[i];
            let fits = u.user_id == user_id && match bound {
                Some(c) => u.url_id < c,
                None => true,
            };
            if fits {
                match best {
                    Some(b) => {
                        if self.urls[b].url_id < u.url_id {
                            best = Some(i);
                        }
                    },
                    None => {
                        best = Some(i);
                    },
                }
            }
            i = i + 1;
        }
        proof {
            assert forall|id: i64| #[trigger] self@.dom().contains(id) && in_scope(self@[id], user_id, bound) implies (best matches Some(b)
                && id <= self.urls@[b as int].url_id) by {
                let j = self.lemma_index_of_key(id);
            }
        }
        best
    }

    /// A page of the links of `user_id`, newest first, starting below
    /// `cursor` when one is given, with at most `limit` links when `limit`
    /// is not negative (a negative limit, taken as a huge size, keeps all).
    /// There is a next page when links were left out (always, for a
    /// negative limit); its cursor is the last link's hex id.
    pub fn get_urls_page(&self, user_id: u128, cursor: Option<i64>, limit: i64) -> (p: UrlsPage)
        requires
            self.wf(),
        ensures
            is_page_of(self@, p.urls@, user_id, cursor),
            limit >= 0 ==> p.urls@.len() <= limit,
            (limit < 0 || p.urls@.len() < limit) ==> !more_after(self@, p.urls@, user_id, cursor),
            opt_string_view(p.next_cursor) == next_cursor_of(
                p.urls@,
                limit < 0 || more_after(self@, p.urls@, user_id, cursor),
            ),
    {
        let mut page: Vec<Url> = Vec::new();
        let mut bound: Option<i64> = cursor;
        let mut exhausted = false;
        loop
            invariant_except_break
                !exhausted,
            invariant
                self.wf(),
                limit >= 0 ==> page@.len() <= limit,
                forall|a: int, b: int| 0 <= a < b < page@.len() ==> page@[a].url_id > page@[b].url_id,
                forall|a: int| 0 <= a < page@.len() ==> self@.dom().contains(#[trigger] page@[a].url_id)
                    && self@[page@[a].url_id] == page@[a]@ && in_scope(page@[a]@, user_id, cursor),
                bound == (if page@.len() == 0 { cursor } else { Some(page@.last().url_id) }),
                forall|id: i64| #[trigger] self@.dom().contains(id) && in_scope(self@[id], user_id, cursor)
                    && !in_scope(self@[id], user_id, bound) ==> page_has(page@, id),
                forall|a: int| 0 <= a < page@.len() ==> 1 <= #[trigger] page@[a].url_id,
            ensures
                exhausted ==> forall|id: i64| #[trigger] self@.dom().contains(id) ==> !in_scope(self@[id], user_id, bound),
                !exhausted ==> limit >= 0 && page@.len() == limit,
            decreases (match bound {
                Some(b) => b as int,
                None => i64::MAX as int + 1,
            }),
        {
            if limit >= 0 && page.len() as i64 >= limit {
                break;
            }
            match self.newest_below(user_id, bound) {
                None => {
                    exhausted = true;
                    break;
                },
                Some(i) => {
                    proof {
                        self.lemma_record_at(i as int);
                    }
                    let ghost before = page@;
                    let ghost old_bound = bound;
                    let picked = self.urls[i].duplicate();
                    let id = picked.url_id;
                    page.push(picked);
                    bound = Some(id);
                    proof {
                        assert(1 <= self.urls@[i as int].url_id) by {
                            assert(1 <= self.urls@[i as int].url_id < self.next_id);
                        }
                        assert forall|a: int| 0 <= a < before.len() implies page@[a] == #[trigger] before[a] by {}
                        assert forall|x: i64| #[trigger] self@.dom().contains(x) && in_scope(self@[x], user_id, cursor)
                            && !in_scope(self@[x], user_id, bound) implies page_has(page@, x) by {
                            if !in_scope(self@[x], user_id, old_bound) {
                                let a = choose|a: int| 0 <= a < before.len() && before[a].url_id == x;
                                assert(page@[a].url_id == x);
                            } else {
                                assert(x <= id);
                                assert(x == id);
                                assert(page@[before.len() as int].url_id == x);
                            }
                        }
                    }
                },
            }
        }
        let found = if limit < 0 {
            None
        } else {
            self.newest_below(user_id, bound)
        };
        let has_next = limit < 0 || found.is_some();
        proof {
            // An in-scope link is left out of the page exactly when it lies below the bound.
            assert forall|x: i64| #[trigger] self@.dom().contains(x) && in_scope(self@[x], user_id, cursor) && !page_has(page@, x)
                implies (page@.len() > 0 ==> x < page@.last().url_id) && in_scope(self@[x], user_id, bound) by {}
            assert forall|x: i64| #[trigger] self@.dom().contains(x) && in_scope(self@[x], user_id, bound)
                implies in_scope(self@[x], user_id, cursor) && !page_has(page@, x) by {
                if page@.len() > 0 {
                    let last = page@.len() - 1;
                    assert(in_scope(page@[last]@, user_id, cursor));
                    if page_has(page@, x) {
                        let a = choose|a: int| 0 <= a < page@.len() && page@[a].url_id == x;
                        if a < last {
                            assert(page@[a].url_id > page@[last].url_id);
                        }
                    }
                }
            }
            if limit >= 0 {
                if let Some(i) = found {
                    let j = i as int;
                    self.lemma_record_at(j);
                    let k = self.urls@[j].url_id;
                    assert(self@.dom().contains(k) && in_scope(self@[k], user_id, bound));
                    assert(more_after(self@, page@, user_id, cursor));
                } else {
                    assert(!more_after(self@, page@, user_id, cursor));
                }
            }
        }
        let next_cursor = if has_next && page.len() > 0 {
            Some(hex_string(page[page.len() - 1].url_id))
        } else {
            None
        };
        UrlsPage { urls: page, next_cursor }
    }
}

/// The view of an optional string.
pub open spec fn opt_string_view(o: Option<String>) -> Option<Seq<char>> {
    match o {
        Some(s) => Some(s@),
        None => None,
    }
}

// ---------------------------------------------------------------------------
// Laws
// ---------------------------------------------------------------------------

/// A stored link resolves by its short code: every link of a wf repository
/// with that code has the link's target and expiry.
pub proof fn lemma_stored_link_resolves(repo: MockUrlRepo, id: i64)
    requires
        repo.wf(),
        repo@.dom().contains(id),
    ensures
        forall|k: i64| #[trigger] repo@.dom().contains(k) && repo@[k].short_code == repo@[id].short_code ==> repo@[k].original_url
            == repo@[id].original_url && repo@[k].expires_at == repo@[id].expires_at,
{
    repo.lemma_short_codes_unique(id);
}

/// Once a link is deleted, no remaining link has its short code.
pub proof fn lemma_deleted_code_unresolvable(repo: MockUrlRepo, id: i64)
    requires
        repo.wf(),
        repo@.dom().contains(id),
    ensures
        forall|k: i64| #[trigger] repo@.remove(id).dom().contains(k) ==> repo@.remove(id)[k].short_code
            != repo@[id].short_code,
{
    repo.lemma_short_codes_unique(id);
}

/// Following a page's cursor continues where the page ended: the next
/// page's links are all older than the first page's, and no link in scope
/// of the first request is skipped (each is on the first page or in scope
/// of the request that follows its cursor).
pub proof fn lemma_next_page_follows(
    m: Map<i64, UrlView>,
    first: Seq<Url>,
    second: Seq<Url>,
    user_id: u128,
    cursor: Option<i64>,
)
    requires
        forall|id: i64| #[trigger] m.dom().contains(id) ==> m[id].url_id == id,
        is_page_of(m, first, user_id, cursor),
        first.len() > 0,
        is_page_of(m, second, user_id, Some(first.last().url_id)),
    ensures
        forall|a: int, b: int| 0 <= a < first.len() && 0 <= b < second.len() ==> first[a].url_id > second[b].url_id,
        forall|id: i64| #[trigger] m.dom().contains(id) && in_scope(m[id], user_id, cursor) ==> page_has(first, id)
            || in_scope(m[id], user_id, Some(first.last().url_id)),
{
    let last = first.len() - 1;
    assert forall|a: int, b: int| 0 <= a < first.len() && 0 <= b < second.len() implies first[a].url_id
        > second[b].url_id by {
        assert(in_scope(second[b]@, user_id, Some(first.last().url_id)));
        if a < last {
            assert(first[a].url_id > first[last].url_id);
        }
    }
    assert forall|id: i64| #[trigger] m.dom().contains(id) && in_scope(m[id], user_id, cursor) implies page_has(first, id)
        || in_scope(m[id], user_id, Some(first.last().url_id)) by {
        if !page_has(first, id) {
            assert(id < first.last().url_id);
            assert(in_scope(m[id], user_id, Some(first.last().url_id)));
        }
    }
}

/// The links of a sequence of pages, page after page.
pub open spec fn flatten_pages(pages: Seq<Seq<Url>>) -> Seq<Url>
    decreases pages.len(),
{
    if pages.len() == 0 {
        Seq::empty()
    } else {
        flatten_pages(pages.drop_last()) + pages.last()
    }
}

/// The cursor of page `k` of a walk: none for the first page, then the id
/// of the previous page's last link.
pub open spec fn walk_cursor(pages: Seq<Seq<Url>>, k: int) -> Option<i64> {
    if k == 0 {
        None
    } else {
        Some(pages[k - 1].last().url_id)
    }
}

/// Whether links run with strictly decreasing ids.
pub open spec fn strictly_newest_first(s: Seq<Url>) -> bool {
    forall|a: int, b: int| 0 <= a < b < s.len() ==> s[a].url_id > s[b].url_id
}

/// Whether `pages` is a walk of a user's links: every page is a page of
/// the links below the cursor the page before it gave, and every page but
/// the last holds links (its cursor leads on).
pub open spec fn is_walk(m: Map<i64, UrlView>, pages: Seq<Seq<Url>>, user_id: u128) -> bool {
    &&& forall|k: int| 0 <= k < pages.len() ==> is_page_of(m, #[trigger] pages[k], user_id, walk_cursor(pages, k))
    &&& forall|k: int| 0 <= k < pages.len() - 1 ==> (#[trigger] pages[k]).len() > 0
}

/// The facts a walk keeps when it appends a page to the links listed so
/// far.
pub open spec fn listed_so_far(m: Map<i64, UrlView>, f: Seq<Url>, user_id: u128, cursor: Option<i64>) -> bool {
    &&& strictly_newest_first(f)
    &&& forall|a: int| 0 <= a < f.len() ==> m.dom().contains(#[trigger] f[a].url_id) && in_scope(f[a]@, user_id, None)
    &&& cursor is None ==> f.len() == 0
    &&& cursor matches Some(c) ==> forall|a: int| 0 <= a < f.len() ==> #[trigger] f[a].url_id >= c
    &&& forall|id: i64| #[trigger] m.dom().contains(id) && in_scope(m[id], user_id, None) ==> page_has(f, id)
        || in_scope(m[id], user_id, cursor)
}

proof fn lemma_append_page(m: Map<i64, UrlView>, prev: Seq<Url>, page: Seq<Url>, user_id: u128, cursor: Option<i64>)
    requires
        forall|id: i64| #[trigger] m.dom().contains(id) ==> m[id].url_id == id,
        is_page_of(m, page, user_id, cursor),
        listed_so_far(m, prev, user_id, cursor),
    ensures
        page.len() > 0 ==> listed_so_far(m, prev + page, user_id, Some(page.last().url_id)),
        !more_after(m, page, user_id, cursor) ==> forall|id: i64| #[trigger] m.dom().contains(id) && in_scope(
            m[id],
            user_id,
            None,
        ) ==> page_has(prev + page, id),
        strictly_newest_first(prev + page),
        forall|a: int| 0 <= a < (prev + page).len() ==> m.dom().contains(#[trigger] (prev + page)[a].url_id) && in_scope(
            (prev + page)[a]@,
            user_id,
            None,
        ),
{
    let f = prev + page;
    let n = prev.len();
    assert forall|a: int, b: int| 0 <= a < b < f.len() implies f[a].url_id > f[b].url_id by {
        if b < n {
            assert(f[a] == prev[a] && f[b] == prev[b]);
        } else if a < n {
            assert(f[a] == prev[a] && f[b] == page[b - n]);
            assert(in_scope(page[b - n]@, user_id, cursor));
        } else {
            assert(f[a] == page[a - n] && f[b] == page[b - n]);
        }
    }
    assert forall|a: int| 0 <= a < f.len() implies m.dom().contains(#[trigger] f[a].url_id) && in_scope(
        f[a]@,
        user_id,
        None,
    ) by {
        if a < n {
            assert(f[a] == prev[a]);
        } else {
            assert(f[a] == page[a - n]);
            assert(in_scope(page[a - n]@, user_id, cursor));
        }
    }
    assert forall|id: i64| #[trigger] m.dom().contains(id) && in_scope(m[id], user_id, None) implies page_has(f, id)
        || (in_scope(m[id], user_id, cursor) && !page_has(page, id)) by {
        if page_has(prev, id) {
            let a = choose|a: int| 0 <= a < n && prev[a].url_id == id;
            assert(f[a] == prev[a]);
        } else if page_has(page, id) {
            let b = choose|b: int| 0 <= b < page.len() && page[b].url_id == id;
            assert(f[n + b] == page[b]);
        }
    }
    if page.len() > 0 {
        let last = page.len() - 1;
        assert forall|a: int| 0 <= a < f.len() implies #[trigger] f[a].url_id >= page.last().url_id by {
            assert(in_scope(page[last]@, user_id, cursor));
            if a < n {
                assert(f[a] == prev[a]);
            } else {
                assert(f[a] == page[a - n]);
                if a - n < last {
                    assert(page[a - n].url_id > page[last].url_id);
                }
            }
        }
    }
}

proof fn lemma_walk_prefix(m: Map<i64, UrlView>, pages: Seq<Seq<Url>>, user_id: u128, n: int)
    requires
        forall|id: i64| #[trigger] m.dom().contains(id) ==> m[id].url_id == id,
        is_walk(m, pages, user_id),
        0 <= n < pages.len(),
        forall|k: int| 0 <= k < n ==> (#[trigger] pages[k]).len() > 0,
    ensures
        listed_so_far(m, flatten_pages(pages.take(n)), user_id, walk_cursor(pages, n)),
    decreases n,
{
    if n == 0 {
        assert(pages.take(0) =~= Seq::<Seq<Url>>::empty());
        assert(flatten_pages(pages.take(0)) =~= Seq::<Url>::empty());
    } else {
        lemma_walk_prefix(m, pages, user_id, n - 1);
        assert(pages.take(n).drop_last() =~= pages.take(n - 1));
        assert(pages.take(n).last() == pages[n - 1]);
        assert(is_page_of(m, pages[n - 1], user_id, walk_cursor(pages, n - 1)));
        lemma_append_page(m, flatten_pages(pages.take(n - 1)), pages[n - 1], user_id, walk_cursor(pages, n - 1));
    }
}

/// Walking a user's links page by page, each page following the cursor of
/// the one before, until a page that leaves no link out (which is what a
/// page without a next cursor means for a limit of at least one), lists
/// every link of the user exactly once, in strictly decreasing id order.
pub proof fn lemma_page_walk(m: Map<i64, UrlView>, pages: Seq<Seq<Url>>, user_id: u128)
    requires
        forall|id: i64| #[trigger] m.dom().contains(id) ==> m[id].url_id == id,
        pages.len() >= 1,
        is_walk(m, pages, user_id),
        !more_after(m, pages.last(), user_id, walk_cursor(pages, pages.len() - 1)),
    ensures
        strictly_newest_first(flatten_pages(pages)),
        forall|a: int| 0 <= a < flatten_pages(pages).len() ==> m.dom().contains(
            #[trigger] flatten_pages(pages)[a].url_id,
        ) && in_scope(flatten_pages(pages)[a]@, user_id, None),
        forall|id: i64| #[trigger] m.dom().contains(id) && in_scope(m[id], user_id, None) ==> page_has(
            flatten_pages(pages),
            id,
        ),
{
    let n = pages.len() - 1;
    lemma_walk_prefix(m, pages, user_id, n);
    assert(pages.drop_last() =~= pages.take(n));
    assert(is_page_of(m, pages[n], user_id, walk_cursor(pages, n)));
    lemma_append_page(m, flatten_pages(pages.take(n)), pages[n], user_id, walk_cursor(pages, n));
}

} // verus!
