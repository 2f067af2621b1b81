//! The event data model: identifiers, tags, payloads, selectors, masks.

use eventric_model::error::Error;
use eventric_model::event::{CandidateEvent, Data, Identifier, Position, Specifier, Tag, Timestamp,
    Version};
use eventric_model::decision::Events;
use eventric_model::selector::{Selection, Selector};

fn persistent(
    kind: &str,
    tags: Vec<(&str, &str)>,
    position: u64,
) -> eventric_model::event::PersistentEvent {
    let identifier = Identifier::new(kind).unwrap();
    let tags: Vec<Tag> = tags.into_iter().map(|(p, v)| Tag::new(p, v).unwrap()).collect();
    let data = Data::new(vec![123, 125]).unwrap();
    CandidateEvent::new(data, identifier, tags, Version::default())
        .into_persistent(Position { value: position }, Timestamp { value: position })
}

#[test]
fn identifier_accepts_symbol_names() {
    let id = Identifier::new("course_registered").unwrap();
    assert_eq!(id.as_str(), "course_registered");
    assert!(Identifier::new("a").is_ok());
    assert!(Identifier::new("a9_z").is_ok());
}

#[test]
fn identifier_rejects_bad_names() {
    assert_eq!(Identifier::new(""), Err(Error::InvalidIdentifier));
    assert_eq!(Identifier::new("9abc"), Err(Error::InvalidIdentifier));
    assert_eq!(Identifier::new("_abc"), Err(Error::InvalidIdentifier));
    assert_eq!(Identifier::new("Abc"), Err(Error::InvalidIdentifier));
    assert_eq!(Identifier::new("ab-c"), Err(Error::InvalidIdentifier));
    assert_eq!(Identifier::new("ab c"), Err(Error::InvalidIdentifier));
}

#[test]
fn tag_renders_prefix_and_value() {
    let t = Tag::new("course", "cs-101").unwrap();
    assert_eq!(t.prefix(), "course");
    assert_eq!(t.value(), "cs-101");
    assert_eq!(t.text(), "course:cs-101");
}

#[test]
fn tag_rejects_bad_parts() {
    assert_eq!(Tag::new("", "x").map(|_| ()), Err(Error::InvalidTag));
    assert_eq!(Tag::new("9bad", "x").map(|_| ()), Err(Error::InvalidTag));
    assert_eq!(Tag::new("course", "").map(|_| ()), Err(Error::InvalidTag));
}

#[test]
fn data_must_be_non_empty() {
    assert_eq!(Data::new(vec![]).map(|_| ()), Err(Error::InvalidData));
    let d = Data::new(vec![1, 2, 3]).unwrap();
    assert_eq!(d.bytes(), &vec![1, 2, 3]);
}

#[test]
fn selector_requires_specifiers() {
    assert_eq!(Selector::specifiers(vec![]).map(|_| ()), Err(Error::InvalidSelector));
    let spec = Specifier::new(Identifier::new("course_defined").unwrap());
    assert!(Selector::specifiers(vec![spec]).is_ok());
    let spec = Specifier::new(Identifier::new("course_defined").unwrap());
    assert_eq!(
        Selector::specifiers_and_tags(vec![spec], vec![]).map(|_| ()),
        Err(Error::InvalidSelector)
    );
}

#[test]
fn selector_matches_by_kind() {
    let spec = Specifier::new(Identifier::new("course_defined").unwrap());
    let sel = Selector::specifiers(vec![spec]).unwrap();
    assert!(sel.matches(&persistent("course_defined", vec![("course", "a")], 0)));
    assert!(!sel.matches(&persistent("course_registered", vec![("course", "a")], 0)));
}

#[test]
fn tag_filters_are_a_conjunction() {
    // A selector with filters {a:1, b:2} matches exactly the events whose tag
    // set includes both.
    let spec = Specifier::new(Identifier::new("kind").unwrap());
    let filters = vec![Tag::new("a", "1").unwrap(), Tag::new("b", "2").unwrap()];
    let sel = Selector::specifiers_and_tags(vec![spec], filters).unwrap();
    assert!(sel.matches(&persistent("kind", vec![("a", "1"), ("b", "2")], 0)));
    assert!(sel.matches(&persistent("kind", vec![("b", "2"), ("a", "1"), ("c", "3")], 0)));
    assert!(!sel.matches(&persistent("kind", vec![("a", "1")], 0)));
    assert!(!sel.matches(&persistent("kind", vec![("b", "2")], 0)));
    assert!(!sel.matches(&persistent("kind", vec![("a", "2"), ("b", "2")], 0)));
    assert!(!sel.matches(&persistent("kind", vec![], 0)));
}

#[test]
fn selection_orders_masks_by_selector_index() {
    let s0 = Selector::specifiers(vec![Specifier::new(Identifier::new("alpha").unwrap())])
        .unwrap();
    let s1 = Selector::specifiers(vec![Specifier::new(Identifier::new("beta").unwrap())]).unwrap();
    let selection = Selection::new(vec![s0, s1]).unwrap();
    assert_eq!(selection.len(), 2);
    let ev = persistent("beta", vec![], 0);
    assert_eq!(selection.mask(&ev), vec![false, true]);
    let masked = selection.masked(ev).unwrap();
    assert_eq!(masked.mask(), &vec![false, true]);
    assert!(masked.mask_bit(1));
    assert!(!masked.mask_bit(0));
    assert!(!masked.mask_bit(7));
}

#[test]
fn selection_drops_unmatched_events() {
    let s0 = Selector::specifiers(vec![Specifier::new(Identifier::new("alpha").unwrap())])
        .unwrap();
    let selection = Selection::new(vec![s0]).unwrap();
    assert!(selection.masked(persistent("gamma", vec![], 0)).is_none());
    assert_eq!(Selection::new(vec![]).map(|_| ()), Err(Error::InvalidSelector));
}

#[test]
fn candidate_becomes_persistent_with_log_coordinates() {
    let ev = persistent("kind", vec![("a", "1")], 7);
    assert_eq!(ev.identifier().as_str(), "kind");
    assert_eq!(ev.position().value, 7);
    assert_eq!(ev.timestamp().value, 7);
    assert_eq!(ev.version().value, 0);
    assert_eq!(ev.tags().len(), 1);
    assert_eq!(ev.tags()[0].text(), "a:1");
    assert_eq!(ev.data().bytes(), &vec![123, 125]);
}

#[test]
fn error_descriptions_are_stable() {
    assert_eq!(Error::InvalidIdentifier.describe(), "invalid identifier");
    assert_eq!(Error::ConcurrencyConflict.describe(), "concurrency conflict");
    assert_eq!(Error::Serialization.describe(), "serialization error");
    assert_eq!(Error::Deserialization.describe(), "deserialization error");
}

#[test]
fn buffer_drains_in_append_order() {
    let mut buffer = Events::new();
    assert_eq!(buffer.len(), 0);
    let first = CandidateEvent::new(
        Data::new(vec![1]).unwrap(),
        Identifier::new("alpha").unwrap(),
        vec![],
        Version::default(),
    );
    let second = CandidateEvent::new(
        Data::new(vec![2]).unwrap(),
        Identifier::new("beta").unwrap(),
        vec![],
        Version::default(),
    );
    buffer.push(first);
    buffer.push(second);
    assert_eq!(buffer.len(), 2);
    let drained = buffer.take();
    assert_eq!(drained.len(), 2);
    assert_eq!(drained[0].identifier().as_str(), "alpha");
    assert_eq!(drained[1].identifier().as_str(), "beta");
}

#[test]
fn version_defaults_to_zero() {
    let v: Version = Default::default();
    assert_eq!(v.value, 0);
}
