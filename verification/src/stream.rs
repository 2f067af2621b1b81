//! The in-memory event log and the decision executor.
//!
//! [`MemoryStream`] is a verified log: positions are assigned consecutively at
//! append time, reading under a selection yields exactly the matching events
//! with their masks in position order, and appending is fenced by the
//! dynamic-consistency condition. Its clock is logical: a stored event's
//! timestamp equals its position.
//!
//! `execute` runs one decision end to end: build the context, assemble the
//! selection, fold every matching stored event into the projections, act, and
//! append whatever the decision buffered — atomically, under the very
//! selection the decision read.

use vstd::prelude::*;

use crate::decision::{fold_updates, Act, Context, Decision};
use crate::error::Error;
use crate::event::{persist, CandidateEvent, CandidateView, EventView, PersistentEvent, Position,
    Timestamp};
use crate::selector::{mask_of, selection_matches, EventMasked, EventMaskedView, Selection,
    SelectorView};

verus! {

/// The masked events a selection reads out of a log, in log order.
pub open spec fn masked_events(log: Seq<EventView>, sel: Seq<SelectorView>) -> Seq<EventMaskedView>
    decreases log.len(),
{
    if log.len() == 0 {
        Seq::empty()
    } else {
        let head = masked_events(log.drop_last(), sel);
        if selection_matches(sel, log.last()) {
            head.push(EventMaskedView { event: log.last(), mask: mask_of(sel, log.last()) })
        } else {
            head
        }
    }
}

/// Every event a selection reads matches some selector of the selection, and
/// its mask records exactly which ones.
pub proof fn lemma_union_coverage(log: Seq<EventView>, sel: Seq<SelectorView>)
    ensures
        forall|k: int| 0 <= k < masked_events(log, sel).len() ==> selection_matches(
            sel,
            #[trigger] masked_events(log, sel)[k].event,
        ) && masked_events(log, sel)[k].mask == mask_of(sel, masked_events(log, sel)[k].event),
    decreases log.len(),
{
    if log.len() > 0 {
        lemma_union_coverage(log.drop_last(), sel);
        let head = masked_events(log.drop_last(), sel);
        let whole = masked_events(log, sel);
        assert forall|k: int| 0 <= k < whole.len() implies selection_matches(
            sel,
            #[trigger] whole[k].event,
        ) && whole[k].mask == mask_of(sel, whole[k].event) by {
            if selection_matches(sel, log.last()) {
                if k < head.len() {
                    assert(whole[k] == head[k]);
                } else {
                    assert(whole[k] == (EventMaskedView {
                        event: log.last(),
                        mask: mask_of(sel, log.last()),
                    }));
                }
            } else {
                assert(whole[k] == head[k]);
            }
        }
    }
}

/// The stored events a run of candidates becomes when appended starting at
/// position `base`. The log's clock is logical: timestamp equals position.
pub open spec fn appended_events(evs: Seq<CandidateView>, base: int) -> Seq<EventView> {
    Seq::new(evs.len(), |k: int| persist(evs[k], (base + k) as u64, (base + k) as u64))
}


/// A run that buffered nothing writes nothing: appending an empty run of
/// candidates leaves the log exactly as it was, so a read-only decision is a
/// no-op on the stream.
pub proof fn lemma_empty_append_is_no_op(log: Seq<EventView>, base: int)
    ensures
        log + appended_events(Seq::empty(), base) == log,
{
    assert(log + appended_events(Seq::empty(), base) =~= log);
}

/// The last observed position of a read: the position of the last event the
/// selection matched, if it matched any.
pub open spec fn last_position(mevs: Seq<EventMaskedView>) -> Option<u64> {
    if mevs.len() == 0 {
        None
    } else {
        Some(mevs.last().event.position)
    }
}

/// Whether the append condition is violated: some stored event matching the
/// selection lies past the last observed position — or exists at all, when no
/// position was observed.
pub open spec fn conflicts(log: Seq<EventView>, sel: Seq<SelectorView>, after: Option<u64>) -> bool {
    exists|k: int|
        0 <= k < log.len() && selection_matches(sel, #[trigger] log[k]) && (match after {
            None => true,
            Some(p) => log[k].position > p,
        })
}

/// Within one execution nothing can slip past the boundary: reading a log and
/// committing under the last observed position of that same read never
/// conflicts.
pub proof fn lemma_no_conflict(log: Seq<EventView>, sel: Seq<SelectorView>)
    requires
        forall|k: int| 0 <= k < log.len() ==> #[trigger] log[k].position == k,
    ensures
        !conflicts(log, sel, last_position(masked_events(log, sel))),
    decreases log.len(),
{
    if log.len() == 0 {
    } else {
        let l2 = log.drop_last();
        let e = log.last();
        let n = log.len() as int;
        if selection_matches(sel, e) {
            let after = last_position(masked_events(log, sel));
            assert(after == Some(e.position));
            assert forall|k: int|
                0 <= k < log.len() && selection_matches(sel, #[trigger] log[k]) implies !(
            log[k].position > e.position) by {
                assert(log[k].position == k);
                assert(e.position == n - 1);
            }
        } else {
            lemma_no_conflict(l2, sel);
            assert(masked_events(log, sel) == masked_events(l2, sel));
            let after = last_position(masked_events(l2, sel));
            assert forall|k: int|
                0 <= k < log.len() && selection_matches(sel, #[trigger] log[k]) implies !(match after {
                None => true,
                Some(p) => log[k].position > p,
            }) by {
                assert(k < n - 1) by {
                    if k == n - 1 {
                        assert(log[k] == e);
                    }
                }
                assert(l2[k] == log[k]);
            }
        }
    }
}


/// Reading distributes over log growth: scanning a grown log yields the old
/// read followed by the read of the new suffix. In particular, re-running a
/// decision after a successful run folds every event the first run appended —
/// as far as they match the selection — before its act runs.
pub proof fn lemma_masked_events_append(
    log1: Seq<EventView>,
    log2: Seq<EventView>,
    sel: Seq<SelectorView>,
)
    ensures
        masked_events(log1 + log2, sel) == masked_events(log1, sel) + masked_events(log2, sel),
    decreases log2.len(),
{
    if log2.len() == 0 {
        assert(log1 + log2 =~= log1);
        assert(masked_events(log1, sel) + masked_events(log2, sel) =~= masked_events(log1, sel));
    } else {
        lemma_masked_events_append(log1, log2.drop_last(), sel);
        assert((log1 + log2).drop_last() =~= log1 + log2.drop_last());
        assert((log1 + log2).last() == log2.last());
        if selection_matches(sel, log2.last()) {
            assert(masked_events(log1, sel) + masked_events(log2.drop_last(), sel).push(
                EventMaskedView { event: log2.last(), mask: mask_of(sel, log2.last()) },
            ) =~= (masked_events(log1, sel) + masked_events(log2.drop_last(), sel)).push(
                EventMaskedView { event: log2.last(), mask: mask_of(sel, log2.last()) },
            ));
        }
    }
}

/// A left fold over one more routed event.
pub proof fn lemma_fold_updates_snoc<D: Decision>(
    d: D,
    cv: D::ContextView,
    evs: Seq<EventMaskedView>,
    i: int,
)
    requires
        0 <= i < evs.len(),
    ensures
        fold_updates(d, cv, evs.take(i + 1)) == (match fold_updates(d, cv, evs.take(i)) {
            Ok(c2) => d.update_of(c2, evs[i]),
            Err(e) => Err(e),
        }),
    decreases i,
{
    let pre = evs.take(i);
    let cur = evs.take(i + 1);
    if i == 0 {
        assert(pre =~= Seq::<EventMaskedView>::empty());
        assert(cur =~= seq![evs[0]]);
        assert(cur.len() == 1 && cur[0] == evs[0]);
        assert(cur.drop_first() =~= Seq::<EventMaskedView>::empty());
        assert(fold_updates(d, cv, pre) == Ok::<D::ContextView, Error>(cv));
        match d.update_of(cv, evs[0]) {
            Ok(c2) => {
                assert(fold_updates(d, cv, cur) == fold_updates(d, c2, cur.drop_first()));
                assert(fold_updates(d, c2, cur.drop_first()) == Ok::<D::ContextView, Error>(c2));
            },
            Err(e) => {
                assert(fold_updates(d, cv, cur) == Err::<D::ContextView, Error>(e));
            },
        }
    } else {
        assert(pre.len() == i && cur.len() == i + 1);
        assert(pre[0] == evs[0] && cur[0] == evs[0]);
        match d.update_of(cv, evs[0]) {
            Ok(cv2) => {
                assert(fold_updates(d, cv, cur) == fold_updates(d, cv2, cur.drop_first()));
                assert(fold_updates(d, cv, pre) == fold_updates(d, cv2, pre.drop_first()));
                assert(pre.drop_first() =~= evs.drop_first().take(i - 1));
                assert(cur.drop_first() =~= evs.drop_first().take(i));
                lemma_fold_updates_snoc(d, cv2, evs.drop_first(), i - 1);
                assert(evs.drop_first()[i - 1] == evs[i]);
            },
            Err(e) => {
                assert(fold_updates(d, cv, cur) == Err::<D::ContextView, Error>(e));
                assert(fold_updates(d, cv, pre) == Err::<D::ContextView, Error>(e));
            },
        }
    }
}

/// Once the fold fails, the whole run fails with that error.
pub proof fn lemma_fold_updates_err<D: Decision>(
    d: D,
    cv: D::ContextView,
    evs: Seq<EventMaskedView>,
    i: int,
    e: Error,
)
    requires
        0 <= i < evs.len(),
        fold_updates(d, cv, evs.take(i + 1)) == Err::<D::ContextView, Error>(e),
    ensures
        fold_updates(d, cv, evs) == Err::<D::ContextView, Error>(e),
    decreases evs.len() - i,
{
    if i + 1 == evs.len() {
        assert(evs.take(i + 1) =~= evs);
    } else {
        lemma_fold_updates_snoc(d, cv, evs, i + 1);
        lemma_fold_updates_err(d, cv, evs, i + 1, e);
    }
}

/// What a decision would append to a log: the buffer its act leaves behind
/// when selection, fold and act all succeed, and nothing otherwise.
pub open spec fn planned_appends<D: Decision>(log: Seq<EventView>, d: D) -> Seq<CandidateView> {
    let cv0 = d.context_init();
    match d.selection_of(cv0) {
        Ok(sel) => match fold_updates(d, cv0, masked_events(log, sel)) {
            Ok(cv1) => if d.act_result(cv1) is Ok {
                d.act_appends(cv1)
            } else {
                Seq::empty()
            },
            Err(_) => Seq::empty(),
        },
        Err(_) => Seq::empty(),
    }
}

/// The verified in-memory event log: an append-only run of stored events
/// whose position — and logical timestamp — is their index.
#[derive(Debug)]
pub struct MemoryStream {
    events: Vec<PersistentEvent>,
}

impl View for MemoryStream {
    type V = Seq<EventView>;

    closed spec fn view(&self) -> Seq<EventView> {
        self.events@.map_values(|e: PersistentEvent| e@)
    }
}

impl MemoryStream {
    /// Invariant: positions are consecutive from zero, timestamps logical.
    #[verifier::type_invariant]
    pub(crate) open spec fn wf(&self) -> bool {
        forall|k: int| 0 <= k < self@.len() ==> #[trigger] self@[k].position == k && self@[
            k
        ].timestamp == k
    }

    /// The empty log.
    pub fn new() -> (r: MemoryStream)
        ensures
            r@ == Seq::<EventView>::empty(),
    {
        let r = MemoryStream { events: Vec::new() };
        proof {
            assert(r@ =~= Seq::<EventView>::empty());
        }
        r
    }

    /// The number of stored events.
    pub fn len(&self) -> (r: usize)
        ensures
            r == self@.len(),
    {
        self.events.len()
    }

    /// The stored event at position `i`.
    pub fn get(&self, i: usize) -> (r: &PersistentEvent)
        requires
            i < self@.len(),
        ensures
            r@ == self@[i as int],
    {
        &self.events[i]
    }

    /// Read every stored event the selection matches, in position order, each
    /// paired with its mask.
    pub fn read_select(&self, selection: &Selection) -> (r: Vec<EventMasked>)
        ensures
            r@.map_values(|m: EventMasked| m@) == masked_events(self@, selection@),
    {
        let mut out: Vec<EventMasked> = Vec::new();
        let mut i: usize = 0;
        while i < self.events.len()
            invariant
                i <= self.events@.len(),
                out@.map_values(|m: EventMasked| m@) == masked_events(
                    self@.take(i as int),
                    selection@,
                ),
            decreases self.events@.len() - i,
        {
            let ghost pre = out@.map_values(|m: EventMasked| m@);
            let ev = self.events[i].clone();
            proof {
                assert(ev@ == self@[i as int]);
                assert(self@.take(i + 1).drop_last() =~= self@.take(i as int));
                assert(self@.take(i + 1).last() == self@[i as int]);
            }
            match selection.masked(ev) {
                Some(m) => {
                    out.push(m);
                    proof {
                        assert(out@.map_values(|m: EventMasked| m@) =~= pre.push(m@));
                    }
                },
                None => {},
            }
            i += 1;
        }
        proof {
            assert(self@.take(self.events@.len() as int) =~= self@);
        }
        out
    }

    /// Append the candidate events — all of them, or none.
    ///
    /// The append succeeds exactly when no stored event matching the selection
    /// lies past `after`: the dynamic consistency boundary. On success the
    /// candidates are persisted in order at the next consecutive positions; on
    /// a conflict the log is untouched.
    pub fn append_select(
        &mut self,
        events: Vec<CandidateEvent>,
        selection: &Selection,
        after: Option<Position>,
    ) -> (res: Result<(), Error>)
        requires
            old(self)@.len() + events@.len() <= u64::MAX,
        ensures
            res is Ok <==> !conflicts(old(self)@, selection@, after_position(after)),
            res is Ok ==> final(self)@ == old(self)@ + appended_events(
                events@.map_values(|e: CandidateEvent| e@),
                old(self)@.len() as int,
            ),
            res matches Err(e) ==> e == Error::ConcurrencyConflict && final(self)@ == old(self)@,
    {
        proof {
            use_type_invariant(&*self);
        }
        let mut k: usize = 0;
        while k < self.events.len()
            invariant
                k <= self.events@.len(),
                forall|j: int|
                    0 <= j < k ==> !(selection_matches(selection@, #[trigger] self@[j]) && (
                    match after_position(after) {
                        None => true,
                        Some(p) => self@[j].position > p,
                    })),
            decreases self.events@.len() - k,
        {
            let ev = &self.events[k];
            if selection.matches(ev) {
                let past = match after {
                    None => true,
                    Some(p) => ev.position().value > p.value,
                };
                if past {
                    proof {
                        assert(selection_matches(selection@, self@[k as int]));
                        assert(conflicts(old(self)@, selection@, after_position(after)));
                    }
                    return Err(Error::ConcurrencyConflict);
                }
            }
            proof {
                assert(self@[k as int] == self.events@[k as int]@);
            }
            k += 1;
        }
        let ghost old_log = self@;
        let ghost views = events@.map_values(|e: CandidateEvent| e@);
        let base: usize = self.events.len();
        let mut log: Vec<PersistentEvent> = Vec::new();
        core::mem::swap(&mut log, &mut self.events);
        let n = events.len();
        let mut i: usize = 0;
        while i < n
            invariant
                i <= n == events@.len(),
                base == old_log.len(),
                old_log.len() + n <= u64::MAX,
                views == events@.map_values(|e: CandidateEvent| e@),
                log@.map_values(|e: PersistentEvent| e@) == old_log + appended_events(
                    views.take(i as int),
                    base as int,
                ),
            decreases n - i,
        {
            let c = events[i].clone();
            let pos: u64 = base as u64 + i as u64;
            let p = c.into_persistent(Position { value: pos }, Timestamp { value: pos });
            log.push(p);
            proof {
                let ghost lv = log@.map_values(|e: PersistentEvent| e@);
                assert(lv =~= old_log + appended_events(views.take(i as int), base as int)
                    + seq![p@]);
                assert(p@ == persist(views[i as int], pos, pos)) by {
                    assert(events@[i as int]@ == views[i as int]);
                }
                assert(appended_events(views.take(i + 1), base as int) =~= appended_events(
                    views.take(i as int),
                    base as int,
                ).push(persist(views[i as int], pos, pos)));
                assert(lv =~= old_log + appended_events(views.take(i + 1), base as int));
            }
            i += 1;
        }
        proof {
            assert(views.take(n as int) =~= views);
            let ghost lv = log@.map_values(|e: PersistentEvent| e@);
            assert forall|k: int| 0 <= k < lv.len() implies #[trigger] lv[k].position == k && lv[
                k
            ].timestamp == k by {
                if k < base {
                    assert(lv[k] == old_log[k]);
                } else {
                    assert(lv[k] == appended_events(views, base as int)[k - base]);
                }
            }
        }
        self.events = log;
        Ok(())
    }

    /// Run one decision end to end.
    ///
    /// The protocol: build the context, assemble its selection, fold every
    /// stored event the selection matches into the projections in position
    /// order, run the decision's act on the full fold, and — only when act
    /// succeeded and buffered something — append the buffer under the same
    /// selection, fenced at the last observed position. An engine error is
    /// surfaced through the decision's own error type; on any error, and on a
    /// read-only decision, the log is untouched. Within one execution the
    /// fence cannot be overtaken, so the append itself never conflicts.
    pub fn execute<D: Decision>(&mut self, decision: D) -> (res: Result<D::Ok, D::Err>)
        requires
            old(self)@.len() + planned_appends(old(self)@, decision).len() <= u64::MAX,
        ensures
            ({
                let cv0 = decision.context_init();
                match decision.selection_of(cv0) {
                    Err(e) => res == Err::<D::Ok, D::Err>(D::err_of(e)) && final(self)@ == old(
                        self,
                    )@,
                    Ok(sel) => match fold_updates(decision, cv0, masked_events(old(self)@, sel)) {
                        Err(e) => res == Err::<D::Ok, D::Err>(D::err_of(e)) && final(self)@ == old(
                            self,
                        )@,
                        Ok(cv1) => {
                            &&& res == decision.act_result(cv1)
                            &&& (res is Err ==> final(self)@ == old(self)@)
                            &&& (res is Ok ==> final(self)@ == old(self)@ + appended_events(
                                decision.act_appends(cv1),
                                old(self)@.len() as int,
                            ))
                        },
                    },
                }
            }),
    {
        proof {
            use_type_invariant(&*self);
        }
        let ghost cv0 = decision.context_init();
        let mut dec = decision;
        let mut context = dec.context();
        let selection = match dec.select(&context) {
            Ok(s) => s,
            Err(e) => {
                return Err(D::stream_err(e));
            },
        };
        let ghost sel = selection@;
        let ghost mevs = masked_events(self@, sel);
        let events = self.read_select(&selection);
        let mut after: Option<Position> = None;
        let mut i: usize = 0;
        while i < events.len()
            invariant
                i <= events@.len(),
                dec == decision,
                cv0 == decision.context_init(),
                decision.selection_of(cv0) == Ok::<Seq<SelectorView>, Error>(sel),
                self@ == old(self)@,
                mevs == masked_events(old(self)@, sel),
                events@.map_values(|m: EventMasked| m@) == mevs,
                fold_updates(decision, cv0, mevs.take(i as int)) == Ok::<D::ContextView, Error>(
                    D::ctx_view(context),
                ),
                D::buffered(context) == Seq::<CandidateView>::empty(),
                after_position(after) == last_position(mevs.take(i as int)),
            decreases events@.len() - i,
        {
            let ev = &events[i];
            after = Some(ev.position());
            proof {
                assert(events@[i as int]@ == mevs[i as int]);
                lemma_fold_updates_snoc(dec, cv0, mevs, i as int);
                assert(mevs.take(i + 1).last() == mevs[i as int]);
            }
            match dec.update(&mut context, ev) {
                Ok(()) => {},
                Err(e) => {
                    proof {
                        lemma_fold_updates_err(dec, cv0, mevs, i as int, e);
                    }
                    return Err(D::stream_err(e));
                },
            }
            i += 1;
        }
        proof {
            assert(mevs.take(events@.len() as int) =~= mevs);
        }
        let ghost cv1 = D::ctx_view(context);
        let res = match dec.act(&mut context) {
            Ok(ok) => ok,
            Err(e) => {
                return Err(e);
            },
        };
        let out = D::take_events(context);
        if out.len() == 0 {
            proof {
                assert(dec.act_appends(cv1).len() == 0);
                assert(appended_events(decision.act_appends(cv1), self@.len() as int)
                    =~= Seq::<EventView>::empty());
                assert(self@ =~= self@ + appended_events(
                    decision.act_appends(cv1),
                    self@.len() as int,
                ));
            }
            return Ok(res);
        }
        proof {
            lemma_no_conflict(self@, sel);
            assert(out@.map_values(|e: CandidateEvent| e@) == decision.act_appends(cv1)) by {
                assert(Seq::<CandidateView>::empty() + decision.act_appends(cv1)
                    =~= decision.act_appends(cv1));
            }
        }
        match self.append_select(out, &selection, after) {
            Ok(()) => Ok(res),
            Err(_) => {
                proof {
                    assert(false);
                }
                Err(D::stream_err(Error::ConcurrencyConflict))
            },
        }
    }
}

/// The position value carried by an optional fence.
pub open spec fn after_position(after: Option<Position>) -> Option<u64> {
    match after {
        None => None,
        Some(p) => Some(p.value),
    }
}

} // verus!
