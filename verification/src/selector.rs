//! Selectors, selections and per-event masks.
//!
//! A selector is one matching predicate: a non-empty set of event kinds plus
//! an optional conjunction of tag filters. A selection is the ordered list of
//! the selectors of one decision context; the position of a selector in the
//! selection is its mask bit index.

use vstd::prelude::*;

use crate::error::Error;
use crate::event::{EventView, PersistentEvent, Specifier, Tag};

verus! {

/// Mathematical model of a selector.
pub struct SelectorView {
    /// The event kinds the selector admits.
    pub specifiers: Seq<Seq<char>>,
    /// Tag filters; every one of them must appear on a matching event.
    pub filters: Seq<(Seq<char>, Seq<char>)>,
}

/// The single matching predicate of a selector: the event's identifier is
/// among the specifiers, and every tag filter appears among the event's tags.
pub open spec fn selector_matches(s: SelectorView, e: EventView) -> bool {
    &&& s.specifiers.contains(e.identifier)
    &&& forall|i: int| 0 <= i < s.filters.len() ==> e.tags.contains(#[trigger] s.filters[i])
}

/// Tag filters act as a conjunction: a selector matches exactly when the
/// event's kind is admitted and the event's tag set includes the whole filter
/// set. Dropping any one filter from the event breaks the match.
pub proof fn lemma_tag_conjunction(s: SelectorView, e: EventView)
    ensures
        selector_matches(s, e) <==> (s.specifiers.contains(e.identifier)
            && s.filters.to_set().subset_of(e.tags.to_set())),
{
    if selector_matches(s, e) {
        assert forall|t: (Seq<char>, Seq<char>)| s.filters.to_set().contains(t) implies e.tags.to_set().contains(t) by {
            let i = choose|i: int| 0 <= i < s.filters.len() && s.filters[i] == t;
            assert(e.tags.contains(s.filters[i]));
        }
    }
    if s.specifiers.contains(e.identifier) && s.filters.to_set().subset_of(e.tags.to_set()) {
        assert forall|i: int| 0 <= i < s.filters.len() implies e.tags.contains(#[trigger] s.filters[i]) by {
            assert(s.filters.to_set().contains(s.filters[i]));
            assert(e.tags.to_set().contains(s.filters[i]));
        }
    }
}

/// Specifiers plus an optional tag-filter conjunction; one matching predicate
/// over persistent events.
#[derive(Debug)]
pub struct Selector {
    specifiers: Vec<Specifier>,
    filters: Vec<Tag>,
}

impl View for Selector {
    type V = SelectorView;

    closed spec fn view(&self) -> SelectorView {
        SelectorView {
            specifiers: self.specifiers@.map_values(|s: Specifier| s@),
            filters: self.filters@.map_values(|t: Tag| t@),
        }
    }
}

impl Selector {
    /// Invariant: at least one specifier.
    #[verifier::type_invariant]
    closed spec fn wf(&self) -> bool {
        self@.specifiers.len() > 0
    }

    /// A selector that admits any event of one of the given kinds; no tag
    /// filters, so tags never exclude an event.
    pub fn specifiers(specifiers: Vec<Specifier>) -> (r: Result<Selector, Error>)
        ensures
            r is Ok <==> specifiers@.len() > 0,
            r matches Ok(s) ==> s@ == (SelectorView {
                specifiers: specifiers@.map_values(|s: Specifier| s@),
                filters: Seq::empty(),
            }),
            r matches Err(e) ==> e == Error::InvalidSelector,
    {
        if specifiers.len() == 0 {
            return Err(Error::InvalidSelector);
        }
        let s = Selector { specifiers, filters: Vec::new() };
        proof {
            assert(s@.filters =~= Seq::<(Seq<char>, Seq<char>)>::empty());
        }
        Ok(s)
    }

    /// A selector that admits events of one of the given kinds carrying every
    /// one of the given tags. Both sets must be non-empty; a selector without
    /// tag filters is built with [`Selector::specifiers`].
    pub fn specifiers_and_tags(specifiers: Vec<Specifier>, tags: Vec<Tag>) -> (r: Result<
        Selector,
        Error,
    >)
        ensures
            r is Ok <==> specifiers@.len() > 0 && tags@.len() > 0,
            r matches Ok(s) ==> s@ == (SelectorView {
                specifiers: specifiers@.map_values(|s: Specifier| s@),
                filters: tags@.map_values(|t: Tag| t@),
            }),
            r matches Err(e) ==> e == Error::InvalidSelector,
    {
        if specifiers.len() == 0 || tags.len() == 0 {
            return Err(Error::InvalidSelector);
        }
        Ok(Selector { specifiers, filters: tags })
    }

    /// Whether this selector matches the stored event.
    pub fn matches(&self, event: &PersistentEvent) -> (r: bool)
        ensures
            r == selector_matches(self@, event@),
    {
        if !self.admits_kind(event) {
            return false;
        }
        let mut i: usize = 0;
        while i < self.filters.len()
            invariant
                i <= self.filters@.len(),
                forall|j: int| 0 <= j < i ==> event@.tags.contains(#[trigger] self@.filters[j]),
            decreases self.filters@.len() - i,
        {
            let present = has_tag(event, &self.filters[i]);
            proof {
                assert(self@.filters[i as int] == self.filters@[i as int]@);
            }
            if !present {
                return false;
            }
            i += 1;
        }
        true
    }

    /// Whether the event's identifier is among this selector's specifiers.
    fn admits_kind(&self, event: &PersistentEvent) -> (r: bool)
        ensures
            r == self@.specifiers.contains(event@.identifier),
    {
        let mut i: usize = 0;
        while i < self.specifiers.len()
            invariant
                i <= self.specifiers@.len(),
                forall|j: int| 0 <= j < i ==> self@.specifiers[j] != event@.identifier,
            decreases self.specifiers@.len() - i,
        {
            if self.specifiers[i].identifier() == event.identifier() {
                proof {
                    assert(self@.specifiers[i as int] == event@.identifier);
                }
                return true;
            }
            proof {
                assert(self@.specifiers[i as int] == self.specifiers@[i as int]@);
            }
            i += 1;
        }
        false
    }
}

impl Clone for Selector {
    fn clone(&self) -> (r: Self)
        ensures
            r@ == self@,
    {
        proof {
            use_type_invariant(self);
        }
        let r = Selector { specifiers: clone_specifiers(&self.specifiers), filters: clone_tags(&self.filters) };
        proof {
            assert(r@.specifiers =~= self@.specifiers);
            assert(r@.filters =~= self@.filters);
        }
        r
    }
}

/// Whether the stored event carries this exact tag.
fn has_tag(event: &PersistentEvent, tag: &Tag) -> (r: bool)
    ensures
        r == event@.tags.contains(tag@),
{
    let tags = event.tags();
    let mut i: usize = 0;
    while i < tags.len()
        invariant
            i <= tags@.len(),
            event@.tags == crate::event::tag_views(tags@),
            forall|j: int| 0 <= j < i ==> event@.tags[j] != tag@,
        decreases tags@.len() - i,
    {
        if &tags[i] == tag {
            proof {
                assert(event@.tags[i as int] == tags@[i as int]@);
            }
            return true;
        }
        proof {
            assert(event@.tags[i as int] == tags@[i as int]@);
        }
        i += 1;
    }
    false
}

fn clone_specifiers(specifiers: &Vec<Specifier>) -> (r: Vec<Specifier>)
    ensures
        r@.len() == specifiers@.len(),
        forall|j: int| 0 <= j < r@.len() ==> #[trigger] r@[j]@ == specifiers@[j]@,
{
    let mut out: Vec<Specifier> = Vec::new();
    let mut i: usize = 0;
    while i < specifiers.len()
        invariant
            i <= specifiers@.len(),
            out@.len() == i,
            forall|j: int| 0 <= j < i ==> #[trigger] out@[j]@ == specifiers@[j]@,
        decreases specifiers@.len() - i,
    {
        out.push(specifiers[i].clone());
        i += 1;
    }
    out
}

fn clone_tags(tags: &Vec<Tag>) -> (r: Vec<Tag>)
    ensures
        r@.len() == tags@.len(),
        forall|j: int| 0 <= j < r@.len() ==> #[trigger] r@[j]@ == tags@[j]@,
{
    let mut out: Vec<Tag> = Vec::new();
    let mut i: usize = 0;
    while i < tags.len()
        invariant
            i <= tags@.len(),
            out@.len() == i,
            forall|j: int| 0 <= j < i ==> #[trigger] out@[j]@ == tags@[j]@,
        decreases tags@.len() - i,
    {
        out.push(tags[i].clone());
        i += 1;
    }
    out
}

/// Whether any selector of the selection matches the event.
pub open spec fn selection_matches(selectors: Seq<SelectorView>, e: EventView) -> bool {
    exists|i: int| 0 <= i < selectors.len() && selector_matches(selectors[i], e)
}

/// The per-event mask over a selection: bit `i` is set exactly when selector
/// `i` matches.
pub open spec fn mask_of(selectors: Seq<SelectorView>, e: EventView) -> Seq<bool> {
    Seq::new(selectors.len(), |i: int| selector_matches(selectors[i], e))
}

/// A mask has a set bit exactly when some selector of the selection matches.
pub proof fn lemma_mask_nonzero(selectors: Seq<SelectorView>, e: EventView)
    ensures
        (exists|i: int| 0 <= i < selectors.len() && mask_of(selectors, e)[i]) <==> selection_matches(
            selectors,
            e,
        ),
{
    if exists|i: int| 0 <= i < selectors.len() && mask_of(selectors, e)[i] {
        let i = choose|i: int| 0 <= i < selectors.len() && mask_of(selectors, e)[i];
        assert(selector_matches(selectors[i], e));
    }
    if selection_matches(selectors, e) {
        let i = choose|i: int| 0 <= i < selectors.len() && selector_matches(selectors[i], e);
        assert(mask_of(selectors, e)[i]);
    }
}

/// The ordered, non-empty list of the selectors of one context. The i-th
/// selector belongs to the i-th projection; its index is its mask bit.
#[derive(Debug)]
pub struct Selection {
    selectors: Vec<Selector>,
}

impl View for Selection {
    type V = Seq<SelectorView>;

    closed spec fn view(&self) -> Seq<SelectorView> {
        self.selectors@.map_values(|s: Selector| s@)
    }
}

impl Selection {
    /// Invariant: at least one selector.
    #[verifier::type_invariant]
    closed spec fn wf(&self) -> bool {
        self@.len() > 0
    }

    /// Assemble a selection from the selectors of a context, in field order.
    pub fn new(selectors: Vec<Selector>) -> (r: Result<Selection, Error>)
        ensures
            r is Ok <==> selectors@.len() > 0,
            r matches Ok(s) ==> s@ == selectors@.map_values(|sel: Selector| sel@),
            r matches Err(e) ==> e == Error::InvalidSelector,
    {
        if selectors.len() == 0 {
            return Err(Error::InvalidSelector);
        }
        Ok(Selection { selectors })
    }

    /// The number of selectors (and so of mask bits).
    pub fn len(&self) -> (r: usize)
        ensures
            r == self@.len(),
            r > 0,
    {
        proof {
            use_type_invariant(self);
        }
        self.selectors.len()
    }

    /// Compute the event's mask over this selection.
    pub fn mask(&self, event: &PersistentEvent) -> (r: Vec<bool>)
        ensures
            r@ == mask_of(self@, event@),
    {
        let mut out: Vec<bool> = Vec::new();
        let mut i: usize = 0;
        while i < self.selectors.len()
            invariant
                i <= self.selectors@.len(),
                out@.len() == i,
                forall|j: int| 0 <= j < i ==> #[trigger] out@[j] == selector_matches(
                    self@[j],
                    event@,
                ),
            decreases self.selectors@.len() - i,
        {
            out.push(self.selectors[i].matches(event));
            i += 1;
        }
        proof {
            assert(out@ =~= mask_of(self@, event@));
        }
        out
    }

    /// Whether any selector of this selection matches the stored event.
    pub fn matches(&self, event: &PersistentEvent) -> (r: bool)
        ensures
            r == selection_matches(self@, event@),
    {
        let mut i: usize = 0;
        while i < self.selectors.len()
            invariant
                i <= self.selectors@.len(),
                forall|j: int| 0 <= j < i ==> !selector_matches(#[trigger] self@[j], event@),
            decreases self.selectors@.len() - i,
        {
            if self.selectors[i].matches(event) {
                proof {
                    assert(selector_matches(self@[i as int], event@));
                }
                return true;
            }
            proof {
                assert(self@[i as int] == self.selectors@[i as int]@);
            }
            i += 1;
        }
        false
    }

    /// Pair the event with its mask, or reject it when no selector matches.
    /// This is the engine's defensive re-check: an event whose mask would be
    /// all zeroes never reaches a context.
    pub fn masked(&self, event: PersistentEvent) -> (r: Option<EventMasked>)
        ensures
            r is Some <==> selection_matches(self@, event@),
            r matches Some(m) ==> m@ == (EventMaskedView {
                event: event@,
                mask: mask_of(self@, event@),
            }),
    {
        let mask = self.mask(&event);
        let mut any: bool = false;
        let mut i: usize = 0;
        while i < mask.len()
            invariant
                i <= mask@.len(),
                mask@ == mask_of(self@, event@),
                any == exists|j: int| 0 <= j < i && mask@[j],
            decreases mask@.len() - i,
        {
            if mask[i] {
                any = true;
            }
            i += 1;
        }
        proof {
            lemma_mask_nonzero(self@, event@);
            if any {
                let j = choose|j: int| 0 <= j < i && mask@[j];
                assert(0 <= j < mask@.len() && mask@[j]);
                assert(has_set_bit(mask@));
            }
        }
        if any {
            Some(EventMasked { event, mask })
        } else {
            None
        }
    }
}

impl Clone for Selection {
    fn clone(&self) -> (r: Self)
        ensures
            r@ == self@,
    {
        proof {
            use_type_invariant(self);
        }
        let mut out: Vec<Selector> = Vec::new();
        let mut i: usize = 0;
        while i < self.selectors.len()
            invariant
                i <= self.selectors@.len(),
                out@.len() == i,
                forall|j: int| 0 <= j < i ==> #[trigger] out@[j]@ == self.selectors@[j]@,
            decreases self.selectors@.len() - i,
        {
            out.push(self.selectors[i].clone());
            i += 1;
        }
        let r = Selection { selectors: out };
        proof {
            assert(r@ =~= self@);
        }
        r
    }
}

/// Whether at least one bit of a mask is set.
pub open spec fn has_set_bit(mask: Seq<bool>) -> bool {
    exists|i: int| 0 <= i < mask.len() && mask[i]
}

/// Mathematical model of a masked event.
pub struct EventMaskedView {
    pub event: EventView,
    pub mask: Seq<bool>,
}

/// A persistent event paired with its mask over the selection that admitted
/// it. Invariant: at least one bit is set.
#[derive(Debug)]
pub struct EventMasked {
    event: PersistentEvent,
    mask: Vec<bool>,
}

impl View for EventMasked {
    type V = EventMaskedView;

    closed spec fn view(&self) -> EventMaskedView {
        EventMaskedView { event: self.event@, mask: self.mask@ }
    }
}

impl EventMasked {
    /// Invariant: some selector matched.
    #[verifier::type_invariant]
    closed spec fn wf(&self) -> bool {
        has_set_bit(self.mask@)
    }

    /// The stored event.
    pub fn event(&self) -> (r: &PersistentEvent)
        ensures
            r@ == self@.event,
    {
        &self.event
    }

    /// The event's log position.
    pub fn position(&self) -> (r: crate::event::Position)
        ensures
            r.value == self@.event.position,
    {
        self.event.position()
    }

    /// The mask over the selection this event was read under.
    pub fn mask(&self) -> (r: &Vec<bool>)
        ensures
            r@ == self@.mask,
    {
        &self.mask
    }

    /// Bit `i` of the mask; `false` past the end of the mask.
    pub fn mask_bit(&self, i: usize) -> (r: bool)
        ensures
            r == (i < self@.mask.len() && self@.mask[i as int]),
    {
        if i < self.mask.len() {
            self.mask[i]
        } else {
            false
        }
    }
}

} // verus!
