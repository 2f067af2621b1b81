//! The projection protocol: select, recognize, dispatch, update.
//!
//! A projection is a typed fold over the event kinds it declares. It exposes
//! its selector, recognises raw stored events of its kinds by decoding them
//! once into a typed payload, and folds dispatched payloads into its fields
//! through one update handler per kind.

use vstd::prelude::*;

use crate::error::Error;
use crate::event::{EventView, Position, Timestamp};
use crate::selector::{EventMasked, Selector, SelectorView};

verus! {

/// A decoded event on its way to the projections of one context: the typed
/// payload, with the position and timestamp of the stored event it came from.
/// Decoding happens once; every projection whose mask bit is set receives this
/// same value.
#[derive(Debug)]
pub struct DispatchEvent<P> {
    /// The decoded payload, typically a closed union over the context's
    /// declared event kinds.
    pub event: P,
    /// The stored event's position.
    pub position: Position,
    /// The stored event's timestamp.
    pub timestamp: Timestamp,
}

/// One typed event handed to an update handler, borrowing the payload from
/// the dispatch step.
#[derive(Debug)]
pub struct UpdateEvent<'a, E> {
    /// The typed event.
    pub event: &'a E,
    /// The stored event's position.
    pub position: Position,
    /// The stored event's timestamp.
    pub timestamp: Timestamp,
}

/// The capability of producing the selector a projection subscribes to.
pub trait Select {
    /// The selector this projection asks for, or the validation error its
    /// construction runs into.
    spec fn selector_of(&self) -> Result<SelectorView, Error>;

    /// Build the selector.
    fn select(&self) -> (res: Result<Selector, Error>)
        ensures
            res is Ok <==> self.selector_of() is Ok,
            res matches Ok(s) ==> s@ == self.selector_of()->Ok_0,
            res matches Err(e) ==> e == self.selector_of()->Err_0,
    ;
}

/// The capability of recognising stored events of the declared kinds and
/// decoding them — once — into the context's shared payload type.
pub trait Recognize {
    /// The decoded payload type shared by the sibling projections of a
    /// context.
    type Payload;

    /// The mathematical model of a payload.
    type PayloadView;

    /// The model of a payload value.
    spec fn payload_view(p: Self::Payload) -> Self::PayloadView;

    /// What recognition returns for a stored event: a decoded payload model
    /// when the event is of a declared kind, nothing when it is not, or the
    /// decoding error.
    spec fn recognize_of(&self, e: EventView) -> Result<Option<Self::PayloadView>, Error>;

    /// Recognise and decode a stored event.
    fn recognize(&self, ev: &EventMasked) -> (res: Result<Option<DispatchEvent<Self::Payload>>, Error>)
        ensures
            res is Ok <==> self.recognize_of(ev@.event) is Ok,
            res matches Ok(r) ==> (match r {
                Some(de) => self.recognize_of(ev@.event) == Ok::<_, Error>(Some(Self::payload_view(de.event)))
                    && de.position.value == ev@.event.position && de.timestamp.value
                    == ev@.event.timestamp,
                None => self.recognize_of(ev@.event) == Ok::<Option<Self::PayloadView>, Error>(None),
            }),
            res matches Err(e) ==> e == self.recognize_of(ev@.event)->Err_0,
    ;
}

/// The capability of folding one dispatched payload into the projection.
pub trait Dispatch: Recognize where Self: Sized {
    /// The projection state after folding a payload; payloads of kinds the
    /// projection does not declare leave it unchanged.
    spec fn dispatch_of(self, p: Self::PayloadView, position: u64, timestamp: u64) -> Self;

    /// Fold one dispatched event.
    fn dispatch(&mut self, ev: &DispatchEvent<Self::Payload>)
        ensures
            *final(self) == old(self).dispatch_of(
                Self::payload_view(ev.event),
                ev.position.value,
                ev.timestamp.value,
            ),
    ;
}

/// The typed fold step for one declared event kind.
pub trait Update<E: View> where Self: Sized {
    /// The projection state after folding one event of this kind.
    spec fn update_of(self, e: E::V, position: u64, timestamp: u64) -> Self;

    /// Fold one typed event.
    fn update(&mut self, ev: UpdateEvent<'_, E>)
        ensures
            *final(self) == old(self).update_of(ev.event@, ev.position.value, ev.timestamp.value),
    ;
}

/// A full projection: it selects, recognises and folds.
pub trait Projection: Select + Dispatch where Self: Sized {

}

/// The payload a context has cached so far while routing one event, as its
/// model under one projection's view.
pub open spec fn cached_view<P: Recognize>(c: Option<DispatchEvent<P::Payload>>) -> Option<
    P::PayloadView,
> {
    match c {
        None => None,
        Some(d) => Some(P::payload_view(d.event)),
    }
}

/// One step of the routing protocol for one projection of a context: if the
/// projection's mask bit is set, decode the event once — reusing the payload a
/// sibling already decoded — and fold it in; otherwise leave the projection
/// alone.
pub open spec fn route_step<P: Dispatch>(
    p: P,
    cached: Option<P::PayloadView>,
    bit: bool,
    e: EventView,
) -> Result<(P, Option<P::PayloadView>), Error> {
    if !bit {
        Ok((p, cached))
    } else {
        match cached {
            Some(c) => Ok((p.dispatch_of(c, e.position, e.timestamp), Some(c))),
            None => match p.recognize_of(e) {
                Ok(Some(c)) => Ok((p.dispatch_of(c, e.position, e.timestamp), Some(c))),
                Ok(None) => Ok((p, None)),
                Err(er) => Err(er),
            },
        }
    }
}


/// Decode once, deliver to every sibling: once a payload has been decoded and
/// cached for an event, every further routing step for that event reuses
/// exactly that payload — it never decodes again — and a set mask bit folds it
/// in unchanged.
pub proof fn lemma_route_shares_payload<P: Dispatch>(
    p: P,
    c: P::PayloadView,
    bit: bool,
    e: EventView,
)
    ensures
        route_step(p, Some(c), bit, e) == Ok::<(P, Option<P::PayloadView>), Error>(
            (
                if bit {
                    p.dispatch_of(c, e.position, e.timestamp)
                } else {
                    p
                },
                Some(c),
            ),
        ),
{
}

/// Route one masked event through one projection, keeping the once-decoded
/// payload in `cached` for the sibling projections of the same context.
pub fn route<P: Dispatch>(
    p: &mut P,
    cached: &mut Option<DispatchEvent<P::Payload>>,
    bit: bool,
    ev: &EventMasked,
) -> (res: Result<(), Error>)
    requires
        (*old(cached)) matches Some(d) ==> d.position.value == ev@.event.position
            && d.timestamp.value == ev@.event.timestamp,
    ensures
        res is Ok <==> route_step(*old(p), cached_view::<P>(*old(cached)), bit, ev@.event) is Ok,
        res is Ok ==> *final(p) == route_step(
            *old(p),
            cached_view::<P>(*old(cached)),
            bit,
            ev@.event,
        )->Ok_0.0 && cached_view::<P>(*final(cached)) == route_step(
            *old(p),
            cached_view::<P>(*old(cached)),
            bit,
            ev@.event,
        )->Ok_0.1,
        res matches Err(e) ==> e == route_step(
            *old(p),
            cached_view::<P>(*old(cached)),
            bit,
            ev@.event,
        )->Err_0 && *final(p) == *old(p) && *final(cached) == *old(cached),
        (*final(cached)) matches Some(d) ==> d.position.value == ev@.event.position
            && d.timestamp.value == ev@.event.timestamp,
{
    if !bit {
        return Ok(());
    }
    if cached.is_none() {
        match p.recognize(ev) {
            Ok(Some(d)) => {
                *cached = Some(d);
            },
            Ok(None) => {
                return Ok(());
            },
            Err(e) => {
                return Err(e);
            },
        }
    }
    match cached {
        Some(d) => {
            p.dispatch(&*d);
        },
        None => {
            proof {
                assert(false);
            }
        },
    }
    Ok(())
}

} // verus!
