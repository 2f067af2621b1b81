//! The event data model: identifiers, tags, specifiers, payloads, and the
//! candidate / persistent event records.

use vstd::prelude::*;

use crate::error::Error;

verus! {

/// First character of a valid identifier: `[a-z]`.
pub open spec fn is_identifier_start(c: char) -> bool {
    'a' <= c && c <= 'z'
}

/// Continuation character of a valid identifier: `[a-z0-9_]`.
pub open spec fn is_identifier_char(c: char) -> bool {
    ||| 'a' <= c && c <= 'z'
    ||| '0' <= c && c <= '9'
    ||| c == '_'
}

/// A valid symbolic name: non-empty, matching `[a-z][a-z0-9_]*`.
pub open spec fn valid_identifier(s: Seq<char>) -> bool {
    &&& s.len() > 0
    &&& is_identifier_start(s[0])
    &&& forall|i: int| 0 < i < s.len() ==> is_identifier_char(#[trigger] s[i])
}

/// A validated, non-empty symbolic name for a kind of event, such as
/// `course_registered`. Values can only be built through [`Identifier::new`],
/// so every `Identifier` in circulation satisfies [`valid_identifier`].
#[derive(Debug)]
pub struct Identifier {
    name: String,
}

impl View for Identifier {
    type V = Seq<char>;

    closed spec fn view(&self) -> Seq<char> {
        self.name@
    }
}

impl Identifier {
    /// Invariant: the interned name is a valid identifier.
    #[verifier::type_invariant]
    pub(crate) open spec fn wf(&self) -> bool {
        valid_identifier(self@)
    }

    /// Validate `name` and intern it as an identifier.
    pub fn new(name: &str) -> (r: Result<Identifier, Error>)
        ensures
            r is Ok <==> valid_identifier(name@),
            r matches Ok(id) ==> id@ == name@,
            r matches Err(e) ==> e == Error::InvalidIdentifier,
    {
        let len: usize = name.unicode_len();
        if len == 0 {
            return Err(Error::InvalidIdentifier);
        }
        let c0: char = name.get_char(0);
        if !('a' <= c0 && c0 <= 'z') {
            return Err(Error::InvalidIdentifier);
        }
        let mut i: usize = 1;
        while i < len
            invariant
                1 <= i <= len,
                len == name@.len(),
                is_identifier_start(name@[0]),
                forall|j: int| 0 < j < i ==> is_identifier_char(#[trigger] name@[j]),
            decreases len - i,
        {
            let c: char = name.get_char(i);
            if !(('a' <= c && c <= 'z') || ('0' <= c && c <= '9') || c == '_') {
                return Err(Error::InvalidIdentifier);
            }
            i += 1;
        }
        Ok(Identifier { name: name.to_owned() })
    }

    /// Intern a name already known to be valid, such as a checked literal.
    pub fn new_valid(name: &str) -> (r: Identifier)
        requires
            valid_identifier(name@),
        ensures
            r@ == name@,
    {
        match Identifier::new(name) {
            Ok(id) => id,
            Err(_) => {
                proof {
                    assert(false);
                }
                Identifier { name: name.to_owned() }
            },
        }
    }

    /// The identifier's text.
    pub fn as_str(&self) -> (r: &str)
        ensures
            r@ == self@,
    {
        self.name.as_str()
    }
}

impl Clone for Identifier {
    fn clone(&self) -> (r: Self)
        ensures
            r == *self,
    {
        proof {
            use_type_invariant(self);
        }
        Identifier { name: self.name.clone() }
    }
}

impl PartialEq for Identifier {
    fn eq(&self, other: &Identifier) -> (r: bool) {
        self.name == other.name
    }
}

impl vstd::std_specs::cmp::PartialEqSpecImpl for Identifier {
    open spec fn obeys_eq_spec() -> bool {
        true
    }

    open spec fn eq_spec(&self, other: &Identifier) -> bool {
        self@ == other@
    }
}

/// A tag pair is valid when its prefix is a valid identifier and its value is
/// non-empty.
pub open spec fn valid_tag(t: (Seq<char>, Seq<char>)) -> bool {
    &&& valid_identifier(t.0)
    &&& t.1.len() > 0
}

/// A `prefix:value` correlation label attached to an event, such as
/// `course:cs-101`. The prefix names a facet, the value renders the domain
/// scalar the event pertains to. Order of tags on an event carries no meaning
/// for filtering.
#[derive(Debug)]
pub struct Tag {
    prefix: String,
    value: String,
}

impl View for Tag {
    type V = (Seq<char>, Seq<char>);

    closed spec fn view(&self) -> (Seq<char>, Seq<char>) {
        (self.prefix@, self.value@)
    }
}

impl Tag {
    /// Invariant: prefix and value pass tag validation.
    #[verifier::type_invariant]
    pub(crate) open spec fn wf(&self) -> bool {
        valid_tag(self@)
    }

    /// Validate the parts and build a tag.
    pub fn new(prefix: &str, value: &str) -> (r: Result<Tag, Error>)
        ensures
            r is Ok <==> valid_tag((prefix@, value@)),
            r matches Ok(t) ==> t@ == (prefix@, value@),
            r matches Err(e) ==> e == Error::InvalidTag,
    {
        if value.unicode_len() == 0 {
            return Err(Error::InvalidTag);
        }
        match Identifier::new(prefix) {
            Ok(_) => Ok(Tag { prefix: prefix.to_owned(), value: value.to_owned() }),
            Err(_) => Err(Error::InvalidTag),
        }
    }

    /// The facet name.
    pub fn prefix(&self) -> (r: &str)
        ensures
            r@ == self@.0,
    {
        self.prefix.as_str()
    }

    /// The rendered domain scalar.
    pub fn value(&self) -> (r: &str)
        ensures
            r@ == self@.1,
    {
        self.value.as_str()
    }

    /// The tag in its `prefix:value` form.
    pub fn text(&self) -> (r: String)
        ensures
            r@ == self@.0 + ":"@ + self@.1,
    {
        let mut s = self.prefix.clone();
        s.append(":");
        s.append(self.value.as_str());
        s
    }
}

impl Clone for Tag {
    fn clone(&self) -> (r: Self)
        ensures
            r == *self,
    {
        proof {
            use_type_invariant(self);
        }
        Tag { prefix: self.prefix.clone(), value: self.value.clone() }
    }
}

impl PartialEq for Tag {
    fn eq(&self, other: &Tag) -> (r: bool) {
        self.prefix == other.prefix && self.value == other.value
    }
}

impl vstd::std_specs::cmp::PartialEqSpecImpl for Tag {
    open spec fn obeys_eq_spec() -> bool {
        true
    }

    open spec fn eq_spec(&self, other: &Tag) -> bool {
        self@ == other@
    }
}

/// A selector's reference to events of one kind. Selectors take specifiers
/// rather than raw identifiers so kind-level refinements can be added without
/// changing the selector surface.
#[derive(Debug)]
pub struct Specifier {
    identifier: Identifier,
}

impl View for Specifier {
    type V = Seq<char>;

    closed spec fn view(&self) -> Seq<char> {
        self.identifier@
    }
}

impl Specifier {
    /// Wrap an identifier as a specifier.
    pub fn new(identifier: Identifier) -> (r: Specifier)
        ensures
            r@ == identifier@,
    {
        Specifier { identifier }
    }

    /// The event kind this specifier denotes.
    pub fn identifier(&self) -> (r: &Identifier)
        ensures
            r@ == self@,
    {
        &self.identifier
    }
}

impl Clone for Specifier {
    fn clone(&self) -> (r: Self)
        ensures
            r@ == self@,
    {
        Specifier { identifier: self.identifier.clone() }
    }
}

/// An opaque, immutable, non-empty byte payload.
#[derive(Debug)]
pub struct Data {
    bytes: Vec<u8>,
}

impl View for Data {
    type V = Seq<u8>;

    closed spec fn view(&self) -> Seq<u8> {
        self.bytes@
    }
}

impl Data {
    /// Invariant: the payload is non-empty.
    #[verifier::type_invariant]
    pub(crate) open spec fn wf(&self) -> bool {
        self@.len() > 0
    }

    /// Wrap encoded bytes; an empty payload is rejected.
    pub fn new(bytes: Vec<u8>) -> (r: Result<Data, Error>)
        ensures
            r is Ok <==> bytes@.len() > 0,
            r matches Ok(d) ==> d@ == bytes@,
            r matches Err(e) ==> e == Error::InvalidData,
    {
        if bytes.len() == 0 {
            return Err(Error::InvalidData);
        }
        Ok(Data { bytes })
    }

    /// The payload bytes.
    pub fn bytes(&self) -> (r: &Vec<u8>)
        ensures
            r@ == self@,
    {
        &self.bytes
    }
}

impl Clone for Data {
    fn clone(&self) -> (r: Self)
        ensures
            r@ == self@,
    {
        proof {
            use_type_invariant(self);
        }
        Data { bytes: self.bytes.clone() }
    }
}

/// Per-event-kind schema revision; defaults to 0 when the producer sets none.
#[derive(Clone, Copy, Debug, PartialEq, Eq, Structural)]
pub struct Version {
    pub value: u64,
}

impl Default for Version {
    fn default() -> (r: Self)
        ensures
            r.value == 0,
    {
        Version { value: 0 }
    }
}

/// A totally ordered opaque token assigned by the log at append time,
/// monotonically increasing within one log.
#[derive(Clone, Copy, Debug, PartialEq, Eq, Structural)]
pub struct Position {
    pub value: u64,
}

/// The wall-clock moment the log recorded an event; for observability only,
/// never for ordering.
#[derive(Clone, Copy, Debug, PartialEq, Eq, Structural)]
pub struct Timestamp {
    pub value: u64,
}

/// Mathematical model of a candidate event.
pub struct CandidateView {
    pub data: Seq<u8>,
    pub identifier: Seq<char>,
    pub tags: Seq<(Seq<char>, Seq<char>)>,
    pub version: u64,
}

/// Mathematical model of a persistent event.
pub struct EventView {
    pub data: Seq<u8>,
    pub identifier: Seq<char>,
    pub tags: Seq<(Seq<char>, Seq<char>)>,
    pub version: u64,
    pub position: u64,
    pub timestamp: u64,
}

impl EventView {
    /// The candidate this stored event was persisted from.
    pub open spec fn candidate(self) -> CandidateView {
        CandidateView {
            data: self.data,
            identifier: self.identifier,
            tags: self.tags,
            version: self.version,
        }
    }
}

/// The views of a sequence of tags.
pub open spec fn tag_views(tags: Seq<Tag>) -> Seq<(Seq<char>, Seq<char>)> {
    tags.map_values(|t: Tag| t@)
}

/// An event produced by code but not yet persisted: payload, kind, tags and
/// schema revision, still lacking the log-assigned position and timestamp.
#[derive(Debug)]
pub struct CandidateEvent {
    data: Data,
    identifier: Identifier,
    tags: Vec<Tag>,
    version: Version,
}

impl View for CandidateEvent {
    type V = CandidateView;

    closed spec fn view(&self) -> CandidateView {
        CandidateView {
            data: self.data@,
            identifier: self.identifier@,
            tags: tag_views(self.tags@),
            version: self.version.value,
        }
    }
}

impl CandidateEvent {
    /// Assemble a candidate event from its parts.
    pub fn new(data: Data, identifier: Identifier, tags: Vec<Tag>, version: Version) -> (r:
        CandidateEvent)
        ensures
            r@ == (CandidateView {
                data: data@,
                identifier: identifier@,
                tags: tag_views(tags@),
                version: version.value,
            }),
    {
        CandidateEvent { data, identifier, tags, version }
    }

    /// The payload.
    pub fn data(&self) -> (r: &Data)
        ensures
            r@ == self@.data,
    {
        &self.data
    }

    /// The event kind.
    pub fn identifier(&self) -> (r: &Identifier)
        ensures
            r@ == self@.identifier,
    {
        &self.identifier
    }

    /// The correlation tags.
    pub fn tags(&self) -> (r: &Vec<Tag>)
        ensures
            tag_views(r@) == self@.tags,
    {
        &self.tags
    }

    /// The schema revision.
    pub fn version(&self) -> (r: Version)
        ensures
            r.value == self@.version,
    {
        self.version
    }

    /// Augment the candidate with the log-assigned position and timestamp.
    pub fn into_persistent(self, position: Position, timestamp: Timestamp) -> (r: PersistentEvent)
        ensures
            r@ == persist(self@, position.value, timestamp.value),
    {
        PersistentEvent {
            data: self.data,
            identifier: self.identifier,
            tags: self.tags,
            version: self.version,
            position,
            timestamp,
        }
    }
}

impl Clone for CandidateEvent {
    fn clone(&self) -> (r: Self)
        ensures
            r@ == self@,
    {
        CandidateEvent {
            data: self.data.clone(),
            identifier: self.identifier.clone(),
            tags: clone_tags(&self.tags),
            version: self.version,
        }
    }
}

/// The stored event a candidate becomes once the log assigns it a position
/// and a timestamp.
pub open spec fn persist(c: CandidateView, position: u64, timestamp: u64) -> EventView {
    EventView {
        data: c.data,
        identifier: c.identifier,
        tags: c.tags,
        version: c.version,
        position,
        timestamp,
    }
}

fn clone_tags(tags: &Vec<Tag>) -> (r: Vec<Tag>)
    ensures
        tag_views(r@) == tag_views(tags@),
{
    let mut out: Vec<Tag> = Vec::new();
    let mut i: usize = 0;
    while i < tags.len()
        invariant
            i <= tags.len(),
            out@.len() == i,
            forall|j: int| 0 <= j < i ==> #[trigger] out@[j]@ == tags@[j]@,
        decreases tags@.len() - i,
    {
        out.push(tags[i].clone());
        i += 1;
    }
    proof {
        assert(tag_views(out@) =~= tag_views(tags@));
    }
    out
}

/// An immutable fact persisted in the log: a candidate event augmented with
/// the position and timestamp the log assigned at append time.
#[derive(Debug)]
pub struct PersistentEvent {
    data: Data,
    identifier: Identifier,
    tags: Vec<Tag>,
    version: Version,
    position: Position,
    timestamp: Timestamp,
}

impl View for PersistentEvent {
    type V = EventView;

    closed spec fn view(&self) -> EventView {
        EventView {
            data: self.data@,
            identifier: self.identifier@,
            tags: tag_views(self.tags@),
            version: self.version.value,
            position: self.position.value,
            timestamp: self.timestamp.value,
        }
    }
}

impl PersistentEvent {
    /// The payload.
    pub fn data(&self) -> (r: &Data)
        ensures
            r@ == self@.data,
    {
        &self.data
    }

    /// The event kind.
    pub fn identifier(&self) -> (r: &Identifier)
        ensures
            r@ == self@.identifier,
    {
        &self.identifier
    }

    /// The correlation tags.
    pub fn tags(&self) -> (r: &Vec<Tag>)
        ensures
            tag_views(r@) == self@.tags,
    {
        &self.tags
    }

    /// The schema revision.
    pub fn version(&self) -> (r: Version)
        ensures
            r.value == self@.version,
    {
        self.version
    }

    /// The log-assigned position.
    pub fn position(&self) -> (r: Position)
        ensures
            r.value == self@.position,
    {
        self.position
    }

    /// The log-assigned timestamp.
    pub fn timestamp(&self) -> (r: Timestamp)
        ensures
            r.value == self@.timestamp,
    {
        self.timestamp
    }
}

impl Clone for PersistentEvent {
    fn clone(&self) -> (r: Self)
        ensures
            r@ == self@,
    {
        PersistentEvent {
            data: self.data.clone(),
            identifier: self.identifier.clone(),
            tags: clone_tags(&self.tags),
            version: self.version,
            position: self.position,
            timestamp: self.timestamp,
        }
    }
}

} // verus!
