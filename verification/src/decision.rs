//! Decisions: the contract between user business rules and the executor.
//!
//! A decision builds its context (one field per projection plus an append
//! buffer), exposes the context's composite selection, routes masked events
//! into the projections, and finally acts: it inspects the projected state and
//! either appends candidate events or returns a domain error.

use vstd::prelude::*;

use crate::error::Error;
use crate::event::{CandidateEvent, CandidateView};
use crate::selector::{EventMasked, EventMaskedView, Selection, SelectorView};

verus! {

/// The append buffer a context carries: candidate events in append order.
#[derive(Debug)]
pub struct Events {
    events: Vec<CandidateEvent>,
}

impl View for Events {
    type V = Seq<CandidateView>;

    closed spec fn view(&self) -> Seq<CandidateView> {
        self.events@.map_values(|e: CandidateEvent| e@)
    }
}

impl Events {
    /// The empty buffer.
    pub fn new() -> (r: Events)
        ensures
            r@ == Seq::<CandidateView>::empty(),
    {
        let r = Events { events: Vec::new() };
        proof {
            assert(r@ =~= Seq::<CandidateView>::empty());
        }
        r
    }

    /// Append one candidate event.
    pub fn push(&mut self, event: CandidateEvent)
        ensures
            final(self)@ == old(self)@.push(event@),
    {
        self.events.push(event);
        proof {
            assert(self@ =~= old(self)@.push(event@));
        }
    }

    /// The number of buffered events.
    pub fn len(&self) -> (r: usize)
        ensures
            r == self@.len(),
    {
        self.events.len()
    }

    /// Drain the buffer, yielding the candidate events in append order.
    pub fn take(self) -> (r: Vec<CandidateEvent>)
        ensures
            r@.map_values(|e: CandidateEvent| e@) == self@,
    {
        self.events
    }
}

/// The capability of building a decision's context.
///
/// The context owns the projections — one field per projection, in the order
/// that fixes each projection's mask bit — together with the append buffer.
pub trait Context {
    /// The context record this decision builds.
    type Context;

    /// The mathematical model of the context's projected state.
    type ContextView;

    /// The model of a context's projected state.
    spec fn ctx_view(c: Self::Context) -> Self::ContextView;

    /// The candidate events buffered in a context, in append order.
    spec fn buffered(c: Self::Context) -> Seq<CandidateView>;

    /// The projected state a fresh context starts from, as derived from the
    /// decision's own fields.
    spec fn context_init(&self) -> Self::ContextView;

    /// Build the context: run every projection's initializer and start with an
    /// empty append buffer.
    fn context(&self) -> (c: Self::Context)
        ensures
            Self::ctx_view(c) == self.context_init(),
            Self::buffered(c) == Seq::<CandidateView>::empty(),
    ;

    /// Drain the context's append buffer.
    fn take_events(c: Self::Context) -> (evs: Vec<CandidateEvent>)
        ensures
            evs@.map_values(|e: CandidateEvent| e@) == Self::buffered(c),
    ;
}

/// The capability of assembling the context's composite selection: the i-th
/// selector is the selector of the i-th projection field.
pub trait Select: Context {
    /// The selection the context reads under, or the validation error its
    /// construction runs into.
    spec fn selection_of(&self, cv: Self::ContextView) -> Result<Seq<SelectorView>, Error>;

    /// Assemble the selection from the projections, in field order.
    fn select(&self, c: &Self::Context) -> (res: Result<Selection, Error>)
        ensures
            res is Ok <==> self.selection_of(Self::ctx_view(*c)) is Ok,
            res matches Ok(s) ==> s@ == self.selection_of(Self::ctx_view(*c))->Ok_0,
            res matches Err(e) ==> e == self.selection_of(Self::ctx_view(*c))->Err_0,
    ;
}

/// The capability of routing one masked event into the context.
///
/// The event is decoded at most once; every projection whose mask bit is set
/// folds the same decoded payload. On an error the context is unchanged.
pub trait Update: Context {
    /// The projected state after routing one masked event, or the decoding
    /// error it runs into.
    spec fn update_of(&self, cv: Self::ContextView, e: EventMaskedView) -> Result<
        Self::ContextView,
        Error,
    >;

    /// Route one masked event into the projections whose mask bit is set.
    fn update(&self, c: &mut Self::Context, ev: &EventMasked) -> (res: Result<(), Error>)
        ensures
            res is Ok <==> self.update_of(Self::ctx_view(*old(c)), ev@) is Ok,
            res is Ok ==> Self::ctx_view(*final(c)) == self.update_of(
                Self::ctx_view(*old(c)),
                ev@,
            )->Ok_0,
            res matches Err(e) ==> e == self.update_of(Self::ctx_view(*old(c)), ev@)->Err_0
                && Self::ctx_view(*final(c)) == Self::ctx_view(*old(c)),
            Self::buffered(*final(c)) == Self::buffered(*old(c)),
    ;
}

/// The capability of acting: the user's unit of work, run once the context
/// has folded every loaded event.
pub trait Act: Context where Self: Sized {
    /// What a successful act yields.
    type Ok;

    /// The decision's domain error; it must be able to absorb an engine error.
    type Err;

    /// The domain rendering of an engine error.
    spec fn err_of(e: Error) -> Self::Err;

    /// Convert an engine error into the decision's error type.
    fn stream_err(e: Error) -> (r: Self::Err)
        ensures
            r == Self::err_of(e),
    ;

    /// The outcome of acting on a projected state.
    spec fn act_result(&self, cv: Self::ContextView) -> Result<Self::Ok, Self::Err>;

    /// The candidate events acting appends to the buffer, in append order.
    spec fn act_appends(&self, cv: Self::ContextView) -> Seq<CandidateView>;

    /// The projected state after acting.
    spec fn act_state(&self, cv: Self::ContextView) -> Self::ContextView;

    /// Inspect the projected state; append events and succeed, or return the
    /// domain error. The decision itself is left as it was.
    fn act(&mut self, c: &mut Self::Context) -> (res: Result<Self::Ok, Self::Err>)
        ensures
            *final(self) == *old(self),
            res == old(self).act_result(Self::ctx_view(*old(c))),
            Self::ctx_view(*final(c)) == old(self).act_state(Self::ctx_view(*old(c))),
            Self::buffered(*final(c)) == Self::buffered(*old(c)) + old(self).act_appends(
                Self::ctx_view(*old(c)),
            ),
    ;
}

/// A full decision: it builds a context, selects, routes, and acts.
pub trait Decision: Select + Update + Act {

}

/// The projected state after routing a whole run of masked events, in order;
/// the first decoding error stops the fold.
pub open spec fn fold_updates<D: Decision>(
    d: D,
    cv: D::ContextView,
    evs: Seq<EventMaskedView>,
) -> Result<D::ContextView, Error>
    decreases evs.len(),
{
    if evs.len() == 0 {
        Ok(cv)
    } else {
        match d.update_of(cv, evs[0]) {
            Ok(cv2) => fold_updates(d, cv2, evs.drop_first()),
            Err(e) => Err(e),
        }
    }
}

} // verus!
