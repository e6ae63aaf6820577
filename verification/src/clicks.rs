//! Click counting: clicks on short codes are gathered in memory and
//! written to the database in batches, when the batch reaches its size or
//! when the flush timer fires; a failed write backs off before the clicks
//! are handed back to the queue.
use vstd::prelude::*;
use vstd::arithmetic::power::pow;

use crate::text::eq_str;

verus! {

/// A batch is written once it holds this many clicks.
pub const CLICK_BATCH_SIZE: u64 = 17;

/// Seconds between two timer flushes of a non-empty batch.
pub const CLICK_FLUSH_INTERVAL_SECS: u64 = 30;

/// The clicks that rows record for short code `k`.
pub open spec fn count_of(rows: Seq<(String, u64)>, k: Seq<char>) -> nat
    decreases rows.len(),
{
    if rows.len() == 0 {
        0
    } else {
        count_of(rows.drop_last(), k) + if rows.last().0@ == k {
            rows.last().1 as nat
        } else {
            0
        }
    }
}

/// All the clicks that rows record.
pub open spec fn total_of(rows: Seq<(String, u64)>) -> nat
    decreases rows.len(),
{
    if rows.len() == 0 {
        0
    } else {
        total_of(rows.drop_last()) + rows.last().1 as nat
    }
}

/// Whether each short code has at most one row.
pub open spec fn codes_distinct(rows: Seq<(String, u64)>) -> bool {
    forall|i: int, j: int| 0 <= i < j < rows.len() ==> rows[i].0@ != rows[j].0@
}

/// A batch handed out for writing: one row per short code with its number
/// of clicks, the number of clicks in all, and the delivery tag to
/// acknowledge (all deliveries up to it) once the write is done.
pub struct ClickFlush {
    pub rows: Vec<(String, u64)>,
    pub total: u64,
    pub ack_tag: Option<u64>,
}

impl ClickFlush {
    /// Rows with distinct codes, each with at least one click, and `total`
    /// clicks in all.
    pub open spec fn well_formed(&self) -> bool {
        &&& codes_distinct(self.rows@)
        &&& forall|i: int| 0 <= i < self.rows@.len() ==> 1 <= #[trigger] self.rows@[i].1
        &&& self.total == total_of(self.rows@)
        &&& 1 <= self.total <= CLICK_BATCH_SIZE
    }
}

/// How many times short code `k` occurs in a sequence of clicks.
pub open spec fn occurrences(clicks: Seq<Seq<char>>, k: Seq<char>) -> nat
    decreases clicks.len(),
{
    if clicks.len() == 0 {
        0
    } else {
        occurrences(clicks.drop_last(), k) + if clicks.last() == k {
            1nat
        } else {
            0nat
        }
    }
}

/// What the batcher does with one click on `code` when `pending` clicks
/// are gathered: the click joins them, and once they number a batch's
/// size they are handed out and the gathering starts over.
pub open spec fn click_step(pending: Seq<Seq<char>>, code: Seq<char>) -> (Seq<Seq<char>>, Option<Seq<Seq<char>>>) {
    let p = pending.push(code);
    if p.len() >= CLICK_BATCH_SIZE {
        (Seq::empty(), Some(p))
    } else {
        (p, None)
    }
}

/// What the batcher does when the timer fires (or no more clicks come):
/// gathered clicks are handed out; with none, nothing happens.
pub open spec fn tick_step(pending: Seq<Seq<char>>) -> (Seq<Seq<char>>, Option<Seq<Seq<char>>>) {
    if pending.len() > 0 {
        (Seq::empty(), Some(pending))
    } else {
        (pending, None)
    }
}

/// What reaches the batcher: a click on a short code, or the timer.
pub enum ClickEvent {
    Click(Seq<char>),
    Tick,
}

/// The clicks still gathered and the batches handed out, in order, after
/// a run of events that starts with nothing gathered.
pub open spec fn run_clicks(events: Seq<ClickEvent>) -> (Seq<Seq<char>>, Seq<Seq<Seq<char>>>)
    decreases events.len(),
{
    if events.len() == 0 {
        (Seq::empty(), Seq::empty())
    } else {
        let before = run_clicks(events.drop_last());
        let step = match events.last() {
            ClickEvent::Click(c) => click_step(before.0, c),
            ClickEvent::Tick => tick_step(before.0),
        };
        (step.0, match step.1 {
            Some(b) => before.1.push(b),
            None => before.1,
        })
    }
}

/// The short codes of the clicks of a run, in order.
pub open spec fn clicks_of(events: Seq<ClickEvent>) -> Seq<Seq<char>>
    decreases events.len(),
{
    if events.len() == 0 {
        Seq::empty()
    } else {
        match events.last() {
            ClickEvent::Click(c) => clicks_of(events.drop_last()).push(c),
            ClickEvent::Tick => clicks_of(events.drop_last()),
        }
    }
}

/// The clicks of the batches handed out, batch after batch.
pub open spec fn flatten_batches(batches: Seq<Seq<Seq<char>>>) -> Seq<Seq<char>>
    decreases batches.len(),
{
    if batches.len() == 0 {
        Seq::empty()
    } else {
        flatten_batches(batches.drop_last()) + batches.last()
    }
}

/// Over a whole run no click is lost or counted twice: the batches handed
/// out, one after the other, followed by the clicks still gathered, are
/// exactly the run's clicks in order. No batch is empty or holds more than
/// a batch's size, and fewer than a batch's size stay gathered.
pub proof fn lemma_click_run(events: Seq<ClickEvent>)
    ensures
        flatten_batches(run_clicks(events).1) + run_clicks(events).0 == clicks_of(events),
        forall|i: int| 0 <= i < run_clicks(events).1.len() ==> 1 <= (#[trigger] run_clicks(events).1[i]).len()
            <= CLICK_BATCH_SIZE,
        run_clicks(events).0.len() < CLICK_BATCH_SIZE,
    decreases events.len(),
{
    if events.len() > 0 {
        let prev = events.drop_last();
        lemma_click_run(prev);
        let before = run_clicks(prev);
        let after = run_clicks(events);
        match events.last() {
            ClickEvent::Click(c) => {
                let step = click_step(before.0, c);
                if step.1 is Some {
                    assert(after.1.drop_last() =~= before.1);
                    assert(flatten_batches(after.1) =~= flatten_batches(before.1) + before.0.push(c));
                    assert(flatten_batches(after.1) + after.0 =~= clicks_of(events));
                } else {
                    assert(flatten_batches(after.1) + after.0 =~= clicks_of(events));
                }
            },
            ClickEvent::Tick => {
                let step = tick_step(before.0);
                if step.1 is Some {
                    assert(after.1.drop_last() =~= before.1);
                    assert(flatten_batches(after.1) =~= flatten_batches(before.1) + before.0);
                    assert(flatten_batches(after.1) + after.0 =~= clicks_of(events));
                } else {
                    assert(flatten_batches(after.1) + after.0 =~= clicks_of(events));
                }
            },
        }
    }
}

/// The clicks a batch handed out (if any) holds for short code `k`.
pub open spec fn flushed_count(out: Option<ClickFlush>, k: Seq<char>) -> nat {
    match out {
        Some(f) => count_of(f.rows@, k),
        None => 0,
    }
}

/// A batch's row for a code holds no more clicks than the batch counts for
/// that code.
proof fn lemma_row_le_count(rows: Seq<(String, u64)>, i: int)
    requires
        0 <= i < rows.len(),
    ensures
        rows[i].1 <= count_of(rows, rows[i].0@),
    decreases rows.len(),
{
    if i < rows.len() - 1 {
        let prev = rows.drop_last();
        lemma_row_le_count(prev, i);
        assert(prev[i] == rows[i]);
    }
}

/// A well-formed batch that counts clicks for one short code alone is a
/// single row: that code with all its clicks.
pub proof fn lemma_single_code_flush(f: ClickFlush, code: Seq<char>)
    requires
        f.well_formed(),
        forall|k: Seq<char>| k != code ==> #[trigger] count_of(f.rows@, k) == 0,
    ensures
        f.rows@.len() == 1,
        f.rows@[0].0@ == code,
        f.rows@[0].1 as nat == count_of(f.rows@, code),
        f.rows@[0].1 == f.total,
{
    let rows = f.rows@;
    assert forall|i: int| 0 <= i < rows.len() implies #[trigger] rows[i].0@ == code by {
        lemma_row_le_count(rows, i);
    }
    if rows.len() == 0 {
        assert(total_of(rows) == 0);
    }
    if rows.len() >= 2 {
        assert(rows[0].0@ == code && rows[1].0@ == code);
    }
    assert(rows.drop_last() =~= Seq::<(String, u64)>::empty());
    assert(count_of(rows.drop_last(), code) == 0);
    assert(total_of(rows.drop_last()) == 0);
}

/// The clicks gathered since the last write.
pub struct ClickBatcher {
    rows: Vec<(String, u64)>,
    total: u64,
    last_tag: Option<u64>,
    failures: u32,
    /// The clicks gathered since the last write, in the order they came.
    clicks: Ghost<Seq<Seq<char>>>,
}

/// `3^(min(failures, 2) + 1)`: the seconds to wait after a failed write
/// that follows `failures` failed writes in a row.
pub open spec fn click_backoff_secs(failures: nat) -> int {
    pow(3, (if failures < 2 {
        failures
    } else {
        2
    }) + 1)
}

proof fn lemma_count_of_push(rows: Seq<(String, u64)>, row: (String, u64), k: Seq<char>)
    ensures
        count_of(rows.push(row), k) == count_of(rows, k) + if row.0@ == k {
            row.1 as nat
        } else {
            0
        },
        total_of(rows.push(row)) == total_of(rows) + row.1 as nat,
{
    assert(rows.push(row).drop_last() =~= rows);
}

proof fn lemma_count_of_bump(rows: Seq<(String, u64)>, i: int, k: Seq<char>)
    requires
        0 <= i < rows.len(),
        rows[i].1 < u64::MAX,
    ensures
        count_of(rows.update(i, (rows[i].0, (rows[i].1 + 1) as u64)), k) == count_of(rows, k) + if rows[i].0@ == k {
            1nat
        } else {
            0nat
        },
        total_of(rows.update(i, (rows[i].0, (rows[i].1 + 1) as u64))) == total_of(rows) + 1,
    decreases rows.len(),
{
    let new_row = (rows[i].0, (rows[i].1 + 1) as u64);
    let after = rows.update(i, new_row);
    if i == rows.len() - 1 {
        assert(after.drop_last() =~= rows.drop_last());
    } else {
        lemma_count_of_bump(rows.drop_last(), i, k);
        assert(after.drop_last() =~= rows.drop_last().update(i, new_row));
    }
}

proof fn lemma_count_of_absent(rows: Seq<(String, u64)>, k: Seq<char>)
    requires
        forall|i: int| 0 <= i < rows.len() ==> #[trigger] rows[i].0@ != k,
    ensures
        count_of(rows, k) == 0,
    decreases rows.len(),
{
    if rows.len() > 0 {
        lemma_count_of_absent(rows.drop_last(), k);
    }
}

proof fn lemma_count_of_empty(rows: Seq<(String, u64)>)
    requires
        rows.len() == 0,
    ensures
        forall|k: Seq<char>| #[trigger] count_of(rows, k) == 0,
        total_of(rows) == 0,
{
}

impl ClickBatcher {
    /// Rows with distinct codes, each with at least one click, fewer than a
    /// batch's worth in all.
    pub closed spec fn wf(&self) -> bool {
        &&& codes_distinct(self.rows@)
        &&& forall|i: int| 0 <= i < self.rows@.len() ==> 1 <= #[trigger] self.rows@[i].1
        &&& self.total == total_of(self.rows@)
        &&& self.total < CLICK_BATCH_SIZE
        &&& forall|k: Seq<char>| #[trigger] count_of(self.rows@, k) == occurrences(self.clicks@, k)
        &&& self.total == self.clicks@.len()
    }

    /// The clicks gathered since the last write, in the order they came.
    pub closed spec fn pending(&self) -> Seq<Seq<char>> {
        self.clicks@
    }

    /// The clicks gathered for short code `k`.
    pub closed spec fn count(&self, k: Seq<char>) -> nat {
        count_of(self.rows@, k)
    }

    /// The clicks gathered in all.
    pub closed spec fn total_spec(&self) -> nat {
        self.total as nat
    }

    /// The tag of the last delivery gathered, if any.
    pub closed spec fn last_tag(&self) -> Option<u64> {
        self.last_tag
    }

    /// The failed writes in a row so far.
    pub closed spec fn failures_spec(&self) -> nat {
        self.failures as nat
    }

    /// The number of failed writes in a row so far.
    pub fn failures(&self) -> (n: u32)
        ensures
            n as nat == self.failures_spec(),
    {
        self.failures
    }

    /// An empty batch.
    pub fn new() -> (b: Self)
        ensures
            b.wf(),
            forall|k: Seq<char>| #[trigger] b.count(k) == 0,
            b.total_spec() == 0,
            b.last_tag() is None,
            b.failures_spec() == 0,
            b.pending() == Seq::<Seq<char>>::empty(),
    {
        let b = ClickBatcher { rows: Vec::new(), total: 0, last_tag: None, failures: 0, clicks: Ghost(Seq::empty()) };
        proof {
            lemma_count_of_empty(b.rows@);
        }
        b
    }

    /// Hands out the whole batch and starts an empty one.
    fn flush_all(&mut self) -> (f: ClickFlush)
        requires
            codes_distinct(old(self).rows@),
            forall|i: int| 0 <= i < old(self).rows@.len() ==> 1 <= #[trigger] old(self).rows@[i].1,
            old(self).total == total_of(old(self).rows@),
            1 <= old(self).total <= CLICK_BATCH_SIZE,
            forall|k: Seq<char>| #[trigger] count_of(old(self).rows@, k) == occurrences(old(self).clicks@, k),
            old(self).total == old(self).clicks@.len(),
        ensures
            forall|k: Seq<char>| #[trigger] count_of(f.rows@, k) == occurrences(old(self).clicks@, k),
            final(self).clicks@ == Seq::<Seq<char>>::empty(),
            f.well_formed(),
            f.rows@ == old(self).rows@,
            f.total == old(self).total,
            f.ack_tag == old(self).last_tag,
            final(self).wf(),
            final(self).rows@.len() == 0,
            final(self).total == 0,
            final(self).last_tag is None,
            final(self).failures == old(self).failures,
    {
        let mut rows: Vec<(String, u64)> = Vec::new();
        std::mem::swap(&mut rows, &mut self.rows);
        let f = ClickFlush { rows, total: self.total, ack_tag: self.last_tag };
        self.total = 0;
        self.last_tag = None;
        self.clicks = Ghost(Seq::empty());
        proof {
            lemma_count_of_empty(self.rows@);
        }
        f
    }

    /// Records a click on `code`, delivered with `tag` (none where
    /// deliveries carry none). When the batch reaches its size it is
    /// handed out and an empty one started.
    pub fn on_click(&mut self, code: String, tag: Option<u64>) -> (out: Option<ClickFlush>)
        requires
            old(self).wf(),
        ensures
            final(self).wf(),
            final(self).failures_spec() == old(self).failures_spec(),
            final(self).pending() == click_step(old(self).pending(), code@).0,
            match click_step(old(self).pending(), code@).1 {
                Some(b) => out matches Some(f) && f.total == b.len() && forall|k: Seq<char>| #[trigger] count_of(f.rows@, k)
                    == occurrences(b, k),
                None => out is None,
            },
            forall|k: Seq<char>| #[trigger] final(self).count(k) + flushed_count(out, k) == old(self).count(k) + if k == code@ {
                1nat
            } else {
                0nat
            },
            old(self).total_spec() + 1 >= CLICK_BATCH_SIZE ==> {
                &&& out matches Some(f) && f.well_formed() && f.ack_tag == tag
                    && f.total == old(self).total_spec() + 1
                    && forall|k: Seq<char>| #[trigger] count_of(f.rows@, k) == old(self).count(k) + if k == code@ {
                        1nat
                    } else {
                        0nat
                    }
                &&& forall|k: Seq<char>| #[trigger] final(self).count(k) == 0
                &&& final(self).total_spec() == 0
                &&& final(self).last_tag() is None
            },
            old(self).total_spec() + 1 < CLICK_BATCH_SIZE ==> {
                &&& out is None
                &&& forall|k: Seq<char>| #[trigger] final(self).count(k) == old(self).count(k) + if k == code@ {
                    1nat
                } else {
                    0nat
                }
                &&& final(self).total_spec() == old(self).total_spec() + 1
                &&& final(self).last_tag() == tag
            },
    {
        let ghost before = self.rows@;
        let ghost cv = code@;
        let ghost old_clicks = self.clicks@;
        let mut i: usize = 0;
        let mut found = false;
        while i < self.rows.len()
            invariant_except_break
                !found,
            invariant
                self.rows@ == before,
                i <= before.len(),
                forall|j: int| 0 <= j < i ==> #[trigger] before[j].0@ != code@,
            ensures
                found ==> i < before.len() && before[i as int].0@ == code@,
                !found ==> forall|j: int| 0 <= j < before.len() ==> #[trigger] before[j].0@ != code@,
            decreases before.len() - i,
        {
            if eq_str(self.rows[i].0.as_str(), code.as_str()) {
                found = true;
                break;
            }
            i = i + 1;
        }
        if found {
            let c = self.rows[i].1;
            let name = self.rows[i].0.clone();
            proof {
                assert(c < CLICK_BATCH_SIZE) by {
                    lemma_row_le_total(before, i as int);
                }
                lemma_count_of_bump(before, i as int, code@);
                assert forall|k: Seq<char>| #[trigger] count_of(before.update(i as int, (before[i as int].0, (c + 1) as u64)), k)
                    == count_of(before, k) + if k == code@ { 1nat } else { 0nat } by {
                    lemma_count_of_bump(before, i as int, k);
                }
            }
            self.rows.set(i, (name, c + 1));
            proof {
                assert(self.rows@ =~= before.update(i as int, (before[i as int].0, (c + 1) as u64))) by {
                    assert(self.rows@[i as int].0@ == before[i as int].0@);
                }
                assert forall|k: Seq<char>| #[trigger] count_of(self.rows@, k) == count_of(
                    before.update(i as int, (before[i as int].0, (c + 1) as u64)), k) by {
                    lemma_count_of_same_view(self.rows@, before.update(i as int, (before[i as int].0, (c + 1) as u64)), k);
                }
                lemma_count_of_same_view(self.rows@, before.update(i as int, (before[i as int].0, (c + 1) as u64)),
                    code@);
            }
        } else {
            proof {
                assert forall|k: Seq<char>| #[trigger] count_of(before.push((code, 1u64)), k) == count_of(before, k)
                    + if k == code@ { 1nat } else { 0nat } by {
                    lemma_count_of_push(before, (code, 1u64), k);
                }
                lemma_count_of_push(before, (code, 1u64), code@);
            }
            self.rows.push((code, 1));
        }
        self.total = self.total + 1;
        self.last_tag = tag;
        self.clicks = Ghost(old_clicks.push(cv));
        proof {
            assert(old_clicks.push(cv).drop_last() =~= old_clicks);
            assert forall|k: Seq<char>| #[trigger] occurrences(self.clicks@, k) == occurrences(old_clicks, k) + if k == cv {
                1nat
            } else {
                0nat
            } by {
                assert(self.clicks@.drop_last() =~= old_clicks);
            }
        }
        if self.total >= CLICK_BATCH_SIZE {
            let f = self.flush_all();
            proof {
                lemma_count_of_empty(self.rows@);
            }
            Some(f)
        } else {
            None
        }
    }

    /// Hands out the batch when it holds any click (the timer fired, or
    /// no more clicks will come), starting an empty one; otherwise nothing.
    pub fn take_batch(&mut self) -> (out: Option<ClickFlush>)
        requires
            old(self).wf(),
        ensures
            final(self).wf(),
            final(self).failures_spec() == old(self).failures_spec(),
            final(self).pending() == tick_step(old(self).pending()).0,
            match tick_step(old(self).pending()).1 {
                Some(b) => out matches Some(f) && f.total == b.len() && forall|k: Seq<char>| #[trigger] count_of(f.rows@, k)
                    == occurrences(b, k),
                None => out is None,
            },
            forall|k: Seq<char>| #[trigger] final(self).count(k) + flushed_count(out, k) == old(self).count(k),
            old(self).total_spec() == 0 ==> (out is None && *final(self) == *old(self)),
            old(self).total_spec() > 0 ==> {
                &&& out matches Some(f) && f.well_formed() && f.ack_tag == old(self).last_tag()
                    && f.total == old(self).total_spec()
                    && forall|k: Seq<char>| #[trigger] count_of(f.rows@, k) == old(self).count(k)
                &&& forall|k: Seq<char>| #[trigger] final(self).count(k) == 0
                &&& final(self).total_spec() == 0
                &&& final(self).last_tag() is None
            },
    {
        if self.total == 0 {
            None
        } else {
            let f = self.flush_all();
            proof {
                lemma_count_of_empty(self.rows@);
            }
            Some(f)
        }
    }

    /// Takes note of how the write of a batch went: a success resets the
    /// failure count; a failure gives the seconds to back off
    /// (3, 9, then 27) before the batch's deliveries are handed back.
    pub fn after_write(&mut self, succeeded: bool) -> (backoff: Option<u64>)
        requires
            !succeeded ==> old(self).failures_spec() < u32::MAX,
        ensures
            final(self).total_spec() == old(self).total_spec(),
            final(self).last_tag() == old(self).last_tag(),
            final(self).wf() == old(self).wf(),
            forall|k: Seq<char>| #[trigger] final(self).count(k) == old(self).count(k),
            succeeded ==> (backoff is None && final(self).failures_spec() == 0),
            !succeeded ==> (backoff matches Some(s) && s == click_backoff_secs(old(self).failures_spec())
                && final(self).failures_spec() == old(self).failures_spec() + 1),
    {
        if succeeded {
            self.failures = 0;
            None
        } else {
            let exponent: u32 = if self.failures < 2 {
                self.failures + 1
            } else {
                3
            };
            let secs: u64 = if exponent == 1 {
                3
            } else if exponent == 2 {
                9
            } else {
                27
            };
            proof {
                reveal_with_fuel(pow, 4);
            }
            self.failures = self.failures + 1;
            Some(secs)
        }
    }
}

proof fn lemma_count_of_same_view(a: Seq<(String, u64)>, b: Seq<(String, u64)>, k: Seq<char>)
    requires
        a.len() == b.len(),
        forall|i: int| 0 <= i < a.len() ==> #[trigger] a[i].0@ == b[i].0@ && a[i].1 == b[i].1,
    ensures
        count_of(a, k) == count_of(b, k),
        total_of(a) == total_of(b),
    decreases a.len(),
{
    if a.len() > 0 {
        lemma_count_of_same_view(a.drop_last(), b.drop_last(), k);
    }
}

proof fn lemma_row_le_total(rows: Seq<(String, u64)>, i: int)
    requires
        0 <= i < rows.len(),
    ensures
        rows[i].1 <= total_of(rows),
    decreases rows.len(),
{
    if i < rows.len() - 1 {
        lemma_row_le_total(rows.drop_last(), i);
    }
}

/// The arrays the batch update binds: the codes, and their click counts as
/// `i64`, row by row.
pub fn click_update_arrays(rows: &Vec<(String, u64)>) -> (r: (Vec<String>, Vec<i64>))
    ensures
        r.0@.len() == rows@.len(),
        r.1@.len() == rows@.len(),
        forall|i: int| 0 <= i < rows@.len() ==> #[trigger] r.0@[i]@ == rows@[i].0@ && r.1@[i] == rows@[i].1 as i64,
{
    let mut codes: Vec<String> = Vec::new();
    let mut deltas: Vec<i64> = Vec::new();
    let mut i: usize = 0;
    while i < rows.len()
        invariant
            i <= rows@.len(),
            codes@.len() == i,
            deltas@.len() == i,
            forall|j: int| 0 <= j < i ==> #[trigger] codes@[j]@ == rows@[j].0@ && deltas@[j] == rows@[j].1 as i64,
        decreases rows@.len() - i,
    {
        let code = rows[i].0.clone();
        let delta = rows[i].1 as i64;
        let ghost before_codes = codes@;
        let ghost before_deltas = deltas@;
        codes.push(code);
        deltas.push(delta);
        proof {
            assert forall|j: int| 0 <= j < i + 1 implies #[trigger] codes@[j]@ == rows@[j].0@ && deltas@[j]
                == rows@[j].1 as i64 by {
                if j < i {
                    assert(codes@[j] == before_codes[j]);
                    assert(deltas@[j] == before_deltas[j]);
                }
            }
        }
        i = i + 1;
    }
    (codes, deltas)
}

/// A failed write waits 3, then 9, then 27 seconds, and never longer.
pub proof fn lemma_click_backoff_steps(failures: nat)
    ensures
        failures == 0 ==> click_backoff_secs(failures) == 3,
        failures == 1 ==> click_backoff_secs(failures) == 9,
        failures >= 2 ==> click_backoff_secs(failures) == 27,
{
    reveal_with_fuel(pow, 4);
}

} // verus!
