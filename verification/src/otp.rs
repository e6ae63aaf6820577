//! One-time codes in development: the stores that keep the codes that
//! would have been mailed, and the text of the mail that carries a code.
use vstd::prelude::*;

use crate::ids::{now, UtcTime};
use crate::text::{concat, eq_str};

verus! {

/// A code kept for an address.
pub struct OtpEntry {
    pub email: String,
    pub otp: String,
    pub created_at: UtcTime,
}

/// The values of an [`OtpEntry`].
pub struct OtpEntryView {
    pub email: Seq<char>,
    pub otp: Seq<char>,
    pub created_at: UtcTime,
}

impl View for OtpEntry {
    type V = OtpEntryView;

    open spec fn view(&self) -> OtpEntryView {
        OtpEntryView { email: self.email@, otp: self.otp@, created_at: self.created_at }
    }
}

impl OtpEntry {
    /// A copy of the entry.
    pub fn duplicate(&self) -> (e: OtpEntry)
        ensures
            e@ == self@,
    {
        OtpEntry { email: self.email.clone(), otp: self.otp.clone(), created_at: self.created_at }
    }
}

/// What is kept for an address: its latest code and when it was made.
pub struct OtpRecord {
    pub otp: Seq<char>,
    pub created_at: UtcTime,
}

/// Whether `a` is not earlier than `b`.
pub open spec fn not_earlier(a: UtcTime, b: UtcTime) -> bool {
    !a.is_before(b)
}

/// The codes of the split layout: only the latest code of each address is
/// kept.
pub struct OtpStore {
    entries: Vec<OtpEntry>,
}

impl View for OtpStore {
    type V = Map<Seq<char>, OtpRecord>;

    closed spec fn view(&self) -> Map<Seq<char>, OtpRecord> {
        Map::new(
            |k: Seq<char>| exists|i: int| 0 <= i < self.entries@.len() && #[trigger] self.entries@[i].email@ == k,
            |k: Seq<char>| {
                let i = choose|i: int| 0 <= i < self.entries@.len() && #[trigger] self.entries@[i].email@ == k;
                OtpRecord { otp: self.entries@[i].otp@, created_at: self.entries@[i].created_at }
            },
        )
    }
}

/// Whether entries run from the most recent to the oldest.
pub open spec fn newest_first(s: Seq<OtpEntry>) -> bool {
    forall|a: int, b: int| 0 <= a < b < s.len() ==> not_earlier(s[a].created_at, s[b].created_at)
}

/// Inserts `e` into entries that run newest first, after every entry that
/// is not earlier than it.
fn insert_by_time(out: &mut Vec<OtpEntry>, e: OtpEntry) -> (p: usize)
    requires
        newest_first(old(out)@),
    ensures
        p <= old(out)@.len(),
        final(out)@ == old(out)@.insert(p as int, e),
        newest_first(final(out)@),
{
    let mut p: usize = 0;
    while p < out.len() && !out[p].created_at.before(&e.created_at)
        invariant
            p <= out@.len(),
            forall|a: int| 0 <= a < p ==> not_earlier(#[trigger] out@[a].created_at, e.created_at),
        decreases out@.len() - p,
    {
        p = p + 1;
    }
    let ghost before = out@;
    let ghost t = e.created_at;
    out.insert(p, e);
    proof {
        assert forall|a: int, b: int| 0 <= a < b < out@.len() implies not_earlier(out@[a].created_at,
            out@[b].created_at) by {
            if b < p {
                assert(out@[a] == before[a] && out@[b] == before[b]);
            } else if b == p {
                assert(out@[a] == before[a]);
            } else if a < p {
                assert(out@[a] == before[a] && out@[b] == before[b - 1]);
                assert(not_earlier(before[a].created_at, t));
            } else if a == p {
                assert(out@[b] == before[b - 1]);
                assert(before[p as int].created_at.is_before(t));
                if b - 1 > p {
                    assert(not_earlier(before[p as int].created_at, before[b - 1].created_at));
                }
            } else {
                assert(out@[a] == before[a - 1] && out@[b] == before[b - 1]);
            }
        }
    }
    p
}

impl OtpStore {
    /// Each address has at most one entry.
    pub closed spec fn wf(&self) -> bool {
        forall|i: int, j: int| 0 <= i < j < self.entries@.len() ==> self.entries@[i].email@ != self.entries@[j].email@
    }

    proof fn lemma_entry(&self, i: int)
        requires
            self.wf(),
            0 <= i < self.entries@.len(),
        ensures
            self@.dom().contains(self.entries@[i].email@),
            self@[self.entries@[i].email@] == (OtpRecord {
                otp: self.entries@[i].otp@,
                created_at: self.entries@[i].created_at,
            }),
    {
        let k = self.entries@[i].email@;
        assert(self.entries@[i].email@ == k);
        let j = choose|j: int| 0 <= j < self.entries@.len() && #[trigger] self.entries@[j].email@ == k;
        if j != i {
            if j < i {
                assert(self.entries@[j].email@ != self.entries@[i].email@);
            } else {
                assert(self.entries@[i].email@ != self.entries@[j].email@);
            }
        }
    }

    /// An empty store.
    pub fn new() -> (s: Self)
        ensures
            s.wf(),
            s@ == Map::<Seq<char>, OtpRecord>::empty(),
    {
        let s = OtpStore { entries: Vec::new() };
        assert(s@ =~= Map::<Seq<char>, OtpRecord>::empty());
        s
    }

    /// Keeps `otp`, made at `at`, as the latest code of `email`, replacing
    /// any earlier one.
    pub fn store_otp_at(&mut self, email: &str, otp: &str, at: UtcTime)
        requires
            old(self).wf(),
        ensures
            final(self).wf(),
            final(self)@ == old(self)@.insert(email@, OtpRecord { otp: otp@, created_at: at }),
    {
        let entry = OtpEntry { email: email.to_owned(), otp: otp.to_owned(), created_at: at };
        let ghost before = self.entries@;
        let mut i: usize = 0;
        let mut found = false;
        while i < self.entries.len()
            invariant_except_break
                !found,
            invariant
                self.entries@ == before,
                i <= before.len(),
                forall|j: int| 0 <= j < i ==> #[trigger] before[j].email@ != email@,
            ensures
                found ==> i < before.len() && before[i as int].email@ == email@,
                !found ==> i == before.len(),
            decreases before.len() - i,
        {
            if eq_str(self.entries[i].email.as_str(), email) {
                found = true;
                break;
            }
            i = i + 1;
        }
        if found {
            self.entries.set(i, entry);
            proof {
                assert(before[i as int].email@ == email@);
                assert forall|a: int, b: int| 0 <= a < b < self.entries@.len() implies self.entries@[a].email@
                    != self.entries@[b].email@ by {
                    assert(self.entries@[a].email@ == before[a].email@);
                    assert(self.entries@[b].email@ == before[b].email@);
                }
                self.lemma_same_then_insert(before, i as int, email@, OtpRecord { otp: otp@, created_at: at });
            }
        } else {
            self.entries.push(entry);
            proof {
                let n = before.len() as int;
                assert forall|a: int, b: int| 0 <= a < b < self.entries@.len() implies self.entries@[a].email@
                    != self.entries@[b].email@ by {
                    if b < n {
                        assert(self.entries@[a] == before[a]);
                        assert(self.entries@[b] == before[b]);
                    } else {
                        assert(self.entries@[a] == before[a]);
                    }
                }
                self.lemma_same_then_insert(before, n, email@, OtpRecord { otp: otp@, created_at: at });
            }
        }
    }

    proof fn lemma_same_then_insert(&self, before: Seq<OtpEntry>, i: int, k: Seq<char>, r: OtpRecord)
        requires
            self.wf(),
            0 <= i < self.entries@.len(),
            self.entries@[i]@ == (OtpEntryView { email: k, otp: r.otp, created_at: r.created_at }),
            self.entries@.len() == before.len() || (self.entries@.len() == before.len() + 1 && i == before.len()),
            forall|j: int| 0 <= j < self.entries@.len() && j != i ==> self.entries@[j] == before[j],
            forall|j: int| 0 <= j < before.len() && j != i ==> #[trigger] before[j].email@ != k,
            i < before.len() ==> before[i].email@ == k,
            forall|a: int, b: int| 0 <= a < b < before.len() ==> before[a].email@ != before[b].email@,
        ensures
            self@ =~= Map::new(
                |x: Seq<char>| exists|j: int| 0 <= j < before.len() && #[trigger] before[j].email@ == x,
                |x: Seq<char>| {
                    let j = choose|j: int| 0 <= j < before.len() && #[trigger] before[j].email@ == x;
                    OtpRecord { otp: before[j].otp@, created_at: before[j].created_at }
                },
            ).insert(k, r),
    {
        let old_map = Map::new(
            |x: Seq<char>| exists|j: int| 0 <= j < before.len() && #[trigger] before[j].email@ == x,
            |x: Seq<char>| {
                let j = choose|j: int| 0 <= j < before.len() && #[trigger] before[j].email@ == x;
                OtpRecord { otp: before[j].otp@, created_at: before[j].created_at }
            },
        );
        assert forall|x: Seq<char>| #[trigger] self@.dom().contains(x) == old_map.insert(k, r).dom().contains(x) by {
            if self@.dom().contains(x) {
                let j = choose|j: int| 0 <= j < self.entries@.len() && #[trigger] self.entries@[j].email@ == x;
                if j != i {
                    assert(before[j].email@ == x);
                }
            }
            if old_map.dom().contains(x) && x != k {
                let j = choose|j: int| 0 <= j < before.len() && #[trigger] before[j].email@ == x;
                assert(j != i);
                assert(self.entries@[j].email@ == x);
            }
            if x == k {
                assert(self.entries@[i].email@ == x);
            }
        }
        assert forall|x: Seq<char>| self@.dom().contains(x) implies self@[x] == old_map.insert(k, r)[x] by {
            let j = choose|j: int| 0 <= j < self.entries@.len() && #[trigger] self.entries@[j].email@ == x;
            self.lemma_entry(j);
            if x != k {
                assert(j != i);
                assert(before[j].email@ == x);
                let j2 = choose|j2: int| 0 <= j2 < before.len() && #[trigger] before[j2].email@ == x;
                if j2 != j {
                    if j2 < j {
                        assert(before[j2].email@ != before[j].email@);
                    } else {
                        assert(before[j].email@ != before[j2].email@);
                    }
                }
            } else {
                self.lemma_entry(i);
            }
        }
    }

    /// Keeps `otp` as the latest code of `email`, made now.
    pub fn store_otp(&mut self, email: &str, otp: &str)
        requires
            old(self).wf(),
        ensures
            final(self).wf(),
            exists|at: UtcTime| final(self)@ == old(self)@.insert(email@, OtpRecord { otp: otp@, created_at: at }),
    {
        let at = now();
        self.store_otp_at(email, otp, at);
    }

    /// Every kept code, the most recent first.
    pub fn get_all(&self) -> (r: Vec<OtpEntry>)
        requires
            self.wf(),
        ensures
            forall|a: int| 0 <= a < r@.len() ==> #[trigger] self@.dom().contains(r@[a].email@) && self@[r@[a].email@]
                == (OtpRecord { otp: r@[a].otp@, created_at: r@[a].created_at }),
            forall|k: Seq<char>| #[trigger] self@.dom().contains(k) ==> exists|a: int| 0 <= a < r@.len() && r@[a].email@ == k,
            forall|a: int, b: int| 0 <= a < b < r@.len() ==> r@[a].email@ != r@[b].email@,
            forall|a: int, b: int| 0 <= a < b < r@.len() ==> not_earlier(r@[a].created_at, r@[b].created_at),
    {
        let mut out: Vec<OtpEntry> = Vec::new();
        let mut i: usize = 0;
        while i < self.entries.len()
            invariant
                self.wf(),
                i <= self.entries@.len(),
                out@.len() == i,
                forall|a: int| 0 <= a < out@.len() ==> exists|j: int| 0 <= j < i && #[trigger] out@[a]@ == self.entries@[j]@,
                forall|j: int| #![trigger self.entries@[j]] 0 <= j < i ==> exists|a: int| 0 <= a < out@.len()
                    && #[trigger] out@[a]@ == self.entries@[j]@,
                forall|a: int, b: int| 0 <= a < b < out@.len() ==> out@[a].email@ != out@[b].email@,
                newest_first(out@),
            decreases self.entries@.len() - i,
        {
            let e = self.entries[i].duplicate();
            let ghost before = out@;
            proof {
                assert forall|a: int| 0 <= a < before.len() implies #[trigger] before[a].email@ != e.email@ by {
                    let j = choose|j: int| 0 <= j < i && #[trigger] before[a]@ == self.entries@[j]@;
                    assert(self.entries@[j].email@ != self.entries@[i as int].email@);
                }
            }
            let p = insert_by_time(&mut out, e);
            proof {
                assert forall|a: int| 0 <= a < out@.len() implies exists|j: int| 0 <= j < i + 1 && #[trigger] out@[a]@
                    == self.entries@[j]@ by {
                    if a < p {
                        assert(out@[a] == before[a]);
                    } else if a == p {
                        assert(out@[a]@ == self.entries@[i as int]@);
                    } else {
                        assert(out@[a] == before[a - 1]);
                    }
                }
                assert forall|j: int| #![trigger self.entries@[j]] 0 <= j < i + 1 implies exists|a: int| 0 <= a < out@.len()
                    && #[trigger] out@[a]@ == self.entries@[j]@ by {
                    if j == i {
                        assert(out@[p as int]@ == self.entries@[j]@);
                    } else {
                        let a = choose|a: int| 0 <= a < before.len() && #[trigger] before[a]@ == self.entries@[j]@;
                        if a < p {
                            assert(out@[a] == before[a]);
                        } else {
                            assert(out@[a + 1] == before[a]);
                        }
                    }
                }
                assert forall|a: int, b: int| 0 <= a < b < out@.len() implies out@[a].email@ != out@[b].email@ by {
                    if b < p {
                        assert(out@[a] == before[a] && out@[b] == before[b]);
                    } else if b == p {
                        assert(out@[a] == before[a]);
                    } else if a < p {
                        assert(out@[a] == before[a] && out@[b] == before[b - 1]);
                    } else if a == p {
                        assert(out@[b] == before[b - 1]);
                    } else {
                        assert(out@[a] == before[a - 1] && out@[b] == before[b - 1]);
                    }
                }
            }
            i = i + 1;
        }
        proof {
            assert forall|a: int| 0 <= a < out@.len() implies #[trigger] self@.dom().contains(out@[a].email@) && self@[out@[a].email@]
                == (OtpRecord { otp: out@[a].otp@, created_at: out@[a].created_at }) by {
                let j = choose|j: int| 0 <= j < self.entries@.len() && #[trigger] out@[a]@ == self.entries@[j]@;
                self.lemma_entry(j);
            }
            assert forall|k: Seq<char>| #[trigger] self@.dom().contains(k) implies exists|a: int| 0 <= a < out@.len()
                && out@[a].email@ == k by {
                let j = choose|j: int| 0 <= j < self.entries@.len() && #[trigger] self.entries@[j].email@ == k;
                let a = choose|a: int| 0 <= a < out@.len() && #[trigger] out@[a]@ == self.entries@[j]@;
                assert(out@[a].email@ == k);
            }
        }
        out
    }
}

// ---------------------------------------------------------------------------
// The single-service log
// ---------------------------------------------------------------------------

/// The single-service layout keeps at most this many codes.
pub const OTP_LOG_CAPACITY: usize = 50;

/// The codes of the single-service layout: every code, oldest first, the
/// oldest dropped once the log is full.
pub struct OtpLog {
    entries: Vec<OtpEntry>,
}

impl View for OtpLog {
    type V = Seq<OtpEntryView>;

    closed spec fn view(&self) -> Seq<OtpEntryView> {
        self.entries@.map_values(|e: OtpEntry| e@)
    }
}

impl OtpLog {
    /// The log holds at most its capacity.
    pub closed spec fn wf(&self) -> bool {
        self.entries@.len() <= OTP_LOG_CAPACITY
    }

    /// An empty log.
    pub fn new() -> (l: Self)
        ensures
            l.wf(),
            l@ == Seq::<OtpEntryView>::empty(),
    {
        let l = OtpLog { entries: Vec::new() };
        assert(l@ =~= Seq::<OtpEntryView>::empty());
        l
    }

    /// Appends `otp` for `email`, made at `at`, first dropping the oldest
    /// code when the log is full.
    pub fn store_otp_at(&mut self, email: &str, otp: &str, at: UtcTime)
        requires
            old(self).wf(),
        ensures
            final(self).wf(),
            final(self)@ == (if old(self)@.len() >= OTP_LOG_CAPACITY {
                old(self)@.drop_first()
            } else {
                old(self)@
            }).push(OtpEntryView { email: email@, otp: otp@, created_at: at }),
    {
        let ghost before = self@;
        if self.entries.len() >= OTP_LOG_CAPACITY {
            self.entries.remove(0);
            proof {
                assert(self@ =~= before.drop_first());
            }
        }
        let ghost mid = self@;
        self.entries.push(OtpEntry { email: email.to_owned(), otp: otp.to_owned(), created_at: at });
        proof {
            assert(self@ =~= mid.push(OtpEntryView { email: email@, otp: otp@, created_at: at }));
        }
    }

    /// Appends `otp` for `email`, made now.
    pub fn store_otp(&mut self, email: &str, otp: &str)
        requires
            old(self).wf(),
        ensures
            final(self).wf(),
            exists|at: UtcTime| final(self)@ == (if old(self)@.len() >= OTP_LOG_CAPACITY {
                old(self)@.drop_first()
            } else {
                old(self)@
            }).push(OtpEntryView { email: email@, otp: otp@, created_at: at }),
    {
        let at = now();
        self.store_otp_at(email, otp, at);
    }

    /// Every kept code, the oldest first.
    pub fn get_all(&self) -> (r: Vec<OtpEntry>)
        ensures
            r@.map_values(|e: OtpEntry| e@) == self@,
    {
        let mut out: Vec<OtpEntry> = Vec::new();
        let mut i: usize = 0;
        while i < self.entries.len()
            invariant
                i <= self.entries@.len(),
                out@.len() == i,
                forall|a: int| 0 <= a < i ==> #[trigger] out@[a]@ == self.entries@[a]@,
            decreases self.entries@.len() - i,
        {
            out.push(self.entries[i].duplicate());
            i = i + 1;
        }
        assert(out@.map_values(|e: OtpEntry| e@) =~= self@);
        out
    }
}

/// The log never holds more than its capacity, and a store keeps the code
/// as the newest entry.
pub proof fn lemma_log_bounded(l: OtpLog, email: Seq<char>, otp: Seq<char>, at: UtcTime, after: Seq<OtpEntryView>)
    requires
        l.wf(),
        after == (if l@.len() >= OTP_LOG_CAPACITY {
            l@.drop_first()
        } else {
            l@
        }).push(OtpEntryView { email, otp, created_at: at }),
    ensures
        after.len() <= OTP_LOG_CAPACITY,
        after.last() == (OtpEntryView { email, otp, created_at: at }),
{
    assert(l@.len() == l.entries@.len());
}

// ---------------------------------------------------------------------------
// Delivery
// ---------------------------------------------------------------------------

/// How a code reaches its address.
#[derive(Clone, Copy, Debug, PartialEq, Eq, Structural)]
pub enum OtpDelivery {
    /// Kept in the development store (no mail is sent).
    Store,
    /// Mailed through the SMTP relay.
    Smtp,
}

/// The delivery for a run mode: the store in `development`, mail otherwise.
pub fn otp_delivery(mode: &str) -> (d: OtpDelivery)
    ensures
        d == (if mode@ == "development"@ {
            OtpDelivery::Store
        } else {
            OtpDelivery::Smtp
        }),
{
    if eq_str(mode, "development") {
        OtpDelivery::Store
    } else {
        OtpDelivery::Smtp
    }
}

/// The SMTP relay the mail goes through.
pub const SMTP_RELAY: &'static str = "smtp.gmail.com";

/// The subject of the mail that carries a code.
pub const OTP_EMAIL_SUBJECT: &'static str = "Your Bittuly verification code";

/// The sender of the mail: `Bittuly <{smtp_user}>`.
pub fn otp_email_from(smtp_user: &str) -> (s: String)
    ensures
        s@ == "Bittuly <"@ + smtp_user@ + ">"@,
{
    let a = concat("Bittuly <", smtp_user);
    proof {
        reveal_strlit("Bittuly <");
        reveal_strlit(">");
    }
    concat(a.as_str(), ">")
}

/// The body of the mail that carries `otp`.
pub open spec fn otp_email_text(otp: Seq<char>) -> Seq<char> {
    "Your one-time verification code is: "@ + otp
        + "\n\nThis code expires in 10 minutes.\nIf you did not request this, please ignore this email."@
}

/// The body of the mail that carries `otp`.
pub fn otp_email_body(otp: &str) -> (s: String)
    ensures
        s@ == otp_email_text(otp@),
{
    let a = concat("Your one-time verification code is: ", otp);
    proof {
        reveal_strlit("Your one-time verification code is: ");
        reveal_strlit(
            "\n\nThis code expires in 10 minutes.\nIf you did not request this, please ignore this email.",
        );
    }
    concat(
        a.as_str(),
        "\n\nThis code expires in 10 minutes.\nIf you did not request this, please ignore this email.",
    )
}

} // verus!
