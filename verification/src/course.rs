//! The course-subscription domain: events, projections and decisions for a
//! catalogue of courses with bounded subscriptions.
//!
//! This module is the engine's reference domain: every capability that the
//! derive surface of a host language would generate — identifiers, tags,
//! records, selectors, recognition, dispatch, context assembly — is written
//! out by hand here, with its contract.

use vstd::prelude::*;

use crate::codec::{Codec, JsonCodec};
use crate::error::Error;
use crate::event::{valid_identifier, CandidateEvent, CandidateView, EventView, Identifier,
    Specifier, Tag, tag_views};
use crate::json::{parse_record, record_bytes, record_encodable};
use crate::decision::Events;
use crate::projection::{cached_view, route, route_step, Dispatch, DispatchEvent, Projection,
    Recognize, Select, Update, UpdateEvent};
use crate::record::{Field, FieldValue, FieldView, Record, ValueView};
use crate::selector::{EventMasked, EventMaskedView, Selection, Selector, SelectorView};

verus! {

/// Build a `course:value` tag.
fn tag_course(value: &str) -> (r: Result<Tag, Error>)
    ensures
        r is Ok <==> value@.len() > 0,
        r matches Ok(t) ==> t@ == ("course"@, value@),
        r matches Err(e) ==> e == Error::InvalidTag,
{
    proof {
        reveal_strlit("course");
        assert(valid_identifier("course"@));
    }
    Tag::new("course", value)
}

/// Build a `student:value` tag.
fn tag_student(value: &str) -> (r: Result<Tag, Error>)
    ensures
        r is Ok <==> value@.len() > 0,
        r matches Ok(t) ==> t@ == ("student"@, value@),
        r matches Err(e) ==> e == Error::InvalidTag,
{
    proof {
        reveal_strlit("student");
        assert(valid_identifier("student"@));
    }
    Tag::new("student", value)
}

/// Mathematical model of a course registration event.
pub struct CourseRegisteredView {
    pub id: Seq<char>,
    pub title: Seq<char>,
    pub capacity: u64,
}

/// A new course entered the catalogue.
#[derive(Debug)]
pub struct CourseRegistered {
    pub id: String,
    pub title: String,
    pub capacity: u64,
}

impl View for CourseRegistered {
    type V = CourseRegisteredView;

    open spec fn view(&self) -> CourseRegisteredView {
        CourseRegisteredView { id: self.id@, title: self.title@, capacity: self.capacity }
    }
}

/// The record shape of a course registration.
pub open spec fn course_registered_record(v: CourseRegisteredView) -> Seq<FieldView> {
    seq![
        FieldView { key: "id"@, value: ValueView::Text(v.id) },
        FieldView { key: "title"@, value: ValueView::Text(v.title) },
        FieldView { key: "capacity"@, value: ValueView::Uint(v.capacity) },
    ]
}

/// Reading a course registration out of a record.
pub open spec fn course_registered_of(fs: Seq<FieldView>) -> Option<CourseRegisteredView> {
    if fs.len() == 3 && fs[0].key == "id"@ && fs[0].value is Text && fs[1].key == "title"@
        && fs[1].value is Text && fs[2].key == "capacity"@ && fs[2].value is Uint {
        Some(
            CourseRegisteredView {
                id: fs[0].value->Text_0,
                title: fs[1].value->Text_0,
                capacity: fs[2].value->Uint_0,
            },
        )
    } else {
        None
    }
}

/// A course registration read back from its own record is itself.
pub proof fn lemma_course_registered_record_roundtrip(v: CourseRegisteredView)
    ensures
        course_registered_of(course_registered_record(v)) == Some(v),
{
}

/// The candidate event a course registration encodes to: its record as
/// canonical JSON, under its kind, tagged with its course.
pub open spec fn course_registered_candidate(v: CourseRegisteredView) -> Result<
    CandidateView,
    Error,
> {
    if v.id.len() == 0 {
        Err(Error::InvalidTag)
    } else if !record_encodable(course_registered_record(v)) {
        Err(Error::Serialization)
    } else {
        Ok(
            CandidateView {
                data: record_bytes(course_registered_record(v)),
                identifier: CourseRegistered::kind(),
                tags: seq![("course"@, v.id)],
                version: 0,
            },
        )
    }
}

impl CourseRegistered {
    /// The kind of these events.
    pub open spec fn kind() -> Seq<char> {
        "course_registered"@
    }

    /// The interned kind identifier.
    pub fn identifier() -> (r: Identifier)
        ensures
            r@ == Self::kind(),
    {
        proof {
            reveal_strlit("course_registered");
            assert(valid_identifier("course_registered"@));
        }
        Identifier::new_valid("course_registered")
    }

    /// The event's correlation tags: its course.
    pub fn tags(&self) -> (r: Result<Vec<Tag>, Error>)
        ensures
            r is Ok <==> self.id@.len() > 0,
            r matches Ok(v) ==> tag_views(v@) == seq![("course"@, self.id@)],
            r matches Err(e) ==> e == Error::InvalidTag,
    {
        let t = tag_course(self.id.as_str())?;
        let mut tags: Vec<Tag> = Vec::new();
        tags.push(t);
        proof {
            assert(tag_views(tags@) =~= seq![("course"@, self.id@)]);
        }
        Ok(tags)
    }

    /// The event as a record.
    pub fn to_record(&self) -> (r: Record)
        ensures
            r@ == course_registered_record(self@),
    {
        proof {
            reveal_strlit("id");
            reveal_strlit("title");
            reveal_strlit("capacity");
            assert(valid_identifier("id"@));
            assert(valid_identifier("title"@));
            assert(valid_identifier("capacity"@));
        }
        let mut r = Record::new();
        r.push(Field::new(Identifier::new_valid("id"), FieldValue::Text(self.id.clone())));
        r.push(Field::new(Identifier::new_valid("title"), FieldValue::Text(self.title.clone())));
        r.push(Field::new(Identifier::new_valid("capacity"), FieldValue::Uint(self.capacity)));
        proof {
            assert(r@ =~= course_registered_record(self@));
        }
        r
    }

    /// Read the event back out of a record.
    pub fn from_record(r: &Record) -> (res: Option<CourseRegistered>)
        ensures
            res is Some <==> course_registered_of(r@) is Some,
            res matches Some(v) ==> Some(v@) == course_registered_of(r@),
    {
        proof {
            reveal_strlit("id");
            reveal_strlit("title");
            reveal_strlit("capacity");
            assert(valid_identifier("id"@));
            assert(valid_identifier("title"@));
            assert(valid_identifier("capacity"@));
        }
        if r.len() != 3 {
            return None;
        }
        let key_id = Identifier::new_valid("id");
        let key_title = Identifier::new_valid("title");
        let key_capacity = Identifier::new_valid("capacity");
        if !(r.field(0).key() == &key_id && r.field(1).key() == &key_title && r.field(2).key()
            == &key_capacity) {
            return None;
        }
        let id = match r.field(0).value() {
            FieldValue::Text(s) => s.clone(),
            _ => {
                return None;
            },
        };
        let title = match r.field(1).value() {
            FieldValue::Text(s) => s.clone(),
            _ => {
                return None;
            },
        };
        let capacity = match r.field(2).value() {
            FieldValue::Uint(n) => *n,
            _ => {
                return None;
            },
        };
        Some(CourseRegistered { id, title, capacity })
    }

    /// Encode the event as a candidate for the log.
    pub fn to_candidate(&self) -> (res: Result<CandidateEvent, Error>)
        ensures
            res is Ok <==> course_registered_candidate(self@) is Ok,
            res matches Ok(ev) ==> ev@ == course_registered_candidate(self@)->Ok_0,
            res matches Err(e) ==> e == course_registered_candidate(self@)->Err_0,
    {
        let tags = self.tags()?;
        let record = self.to_record();
        crate::codec::encode(&JsonCodec, &record, Self::identifier(), tags)
    }
}

impl Clone for CourseRegistered {
    fn clone(&self) -> (r: Self)
        ensures
            r == *self,
    {
        CourseRegistered { id: self.id.clone(), title: self.title.clone(), capacity: self.capacity }
    }
}


/// Mathematical model: a course was defined with its capacity.
pub struct CourseDefinedView {
    pub id: Seq<char>,
    pub capacity: u64,
}

/// A course was defined with its capacity.
#[derive(Debug)]
pub struct CourseDefined {
    pub id: String,
    pub capacity: u64,
}

impl View for CourseDefined {
    type V = CourseDefinedView;

    open spec fn view(&self) -> CourseDefinedView {
        CourseDefinedView { id: self.id@, capacity: self.capacity }
    }
}

/// The record shape of the event.
pub open spec fn course_defined_record(v: CourseDefinedView) -> Seq<FieldView> {
    seq![
        FieldView { key: "id"@, value: ValueView::Text(v.id) },
        FieldView { key: "capacity"@, value: ValueView::Uint(v.capacity) },
    ]
}

/// Reading the event out of a record.
pub open spec fn course_defined_of(fs: Seq<FieldView>) -> Option<CourseDefinedView> {
    if fs.len() == 2 && fs[0].key == "id"@ && fs[0].value is Text && fs[1].key == "capacity"@ && fs[1].value is Uint {
        Some(
            CourseDefinedView {
                id: fs[0].value->Text_0,
                capacity: fs[1].value->Uint_0,
            },
        )
    } else {
        None
    }
}

/// The event read back from its own record is itself.
pub proof fn lemma_course_defined_record_roundtrip(v: CourseDefinedView)
    ensures
        course_defined_of(course_defined_record(v)) == Some(v),
{
}

/// The candidate event this event encodes to.
pub open spec fn course_defined_candidate(v: CourseDefinedView) -> Result<CandidateView, Error> {
    if v.id.len() == 0 {
        Err(Error::InvalidTag)
    } else if !record_encodable(course_defined_record(v)) {
        Err(Error::Serialization)
    } else {
        Ok(
            CandidateView {
                data: record_bytes(course_defined_record(v)),
                identifier: CourseDefined::kind(),
                tags: seq![("course"@, v.id)],
                version: 0,
            },
        )
    }
}

impl CourseDefined {
    /// The kind of these events.
    pub open spec fn kind() -> Seq<char> {
        "course_defined"@
    }

    /// The interned kind identifier.
    pub fn identifier() -> (r: Identifier)
        ensures
            r@ == Self::kind(),
    {
        proof {
            reveal_strlit("course_defined");
            assert(valid_identifier("course_defined"@));
        }
        Identifier::new_valid("course_defined")
    }

    /// The event's correlation tags: its course.
    pub fn tags(&self) -> (r: Result<Vec<Tag>, Error>)
        ensures
            r is Ok <==> self.id@.len() > 0,
            r matches Ok(v) ==> tag_views(v@) == seq![("course"@, self.id@)],
            r matches Err(e) ==> e == Error::InvalidTag,
    {
        let t = tag_course(self.id.as_str())?;
        let mut tags: Vec<Tag> = Vec::new();
        tags.push(t);
        proof {
            assert(tag_views(tags@) =~= seq![("course"@, self.id@)]);
        }
        Ok(tags)
    }

    /// The event as a record.
    pub fn to_record(&self) -> (r: Record)
        ensures
            r@ == course_defined_record(self@),
    {
        proof {
            reveal_strlit("id");
            reveal_strlit("capacity");
            assert(valid_identifier("id"@));
            assert(valid_identifier("capacity"@));
        }
        let mut r = Record::new();
        r.push(Field::new(Identifier::new_valid("id"), FieldValue::Text(self.id.clone())));
        r.push(Field::new(Identifier::new_valid("capacity"), FieldValue::Uint(self.capacity)));
        proof {
            assert(r@ =~= course_defined_record(self@));
        }
        r
    }

    /// Read the event back out of a record.
    pub fn from_record(r: &Record) -> (res: Option<CourseDefined>)
        ensures
            res is Some <==> course_defined_of(r@) is Some,
            res matches Some(v) ==> Some(v@) == course_defined_of(r@),
    {
        proof {
            reveal_strlit("id");
            reveal_strlit("capacity");
            assert(valid_identifier("id"@));
            assert(valid_identifier("capacity"@));
        }
        if r.len() != 2 {
            return None;
        }
        let key_id = Identifier::new_valid("id");
        let key_capacity = Identifier::new_valid("capacity");
        if !(r.field(0).key() == &key_id && r.field(1).key() == &key_capacity) {
            return None;
        }
        let id = match r.field(0).value() {
            FieldValue::Text(s) => s.clone(),
            _ => {
                return None;
            },
        };
        let capacity = match r.field(1).value() {
            FieldValue::Uint(x) => *x,
            _ => {
                return None;
            },
        };
        Some(CourseDefined { id, capacity })
    }

    /// Encode the event as a candidate for the log.
    pub fn to_candidate(&self) -> (res: Result<CandidateEvent, Error>)
        ensures
            res is Ok <==> course_defined_candidate(self@) is Ok,
            res matches Ok(ev) ==> ev@ == course_defined_candidate(self@)->Ok_0,
            res matches Err(e) ==> e == course_defined_candidate(self@)->Err_0,
    {
        let tags = self.tags()?;
        let record = self.to_record();
        crate::codec::encode(&JsonCodec, &record, Self::identifier(), tags)
    }
}

impl Clone for CourseDefined {
    fn clone(&self) -> (r: Self)
        ensures
            r == *self,
    {
        CourseDefined { id: self.id.clone(), capacity: self.capacity }
    }
}

/// Mathematical model: a course's capacity was changed.
pub struct CourseCapacityChangedView {
    pub id: Seq<char>,
    pub new_capacity: u64,
}

/// A course's capacity was changed.
#[derive(Debug)]
pub struct CourseCapacityChanged {
    pub id: String,
    pub new_capacity: u64,
}

impl View for CourseCapacityChanged {
    type V = CourseCapacityChangedView;

    open spec fn view(&self) -> CourseCapacityChangedView {
        CourseCapacityChangedView { id: self.id@, new_capacity: self.new_capacity }
    }
}

/// The record shape of the event.
pub open spec fn course_capacity_changed_record(v: CourseCapacityChangedView) -> Seq<FieldView> {
    seq![
        FieldView { key: "id"@, value: ValueView::Text(v.id) },
        FieldView { key: "new_capacity"@, value: ValueView::Uint(v.new_capacity) },
    ]
}

/// Reading the event out of a record.
pub open spec fn course_capacity_changed_of(fs: Seq<FieldView>) -> Option<CourseCapacityChangedView> {
    if fs.len() == 2 && fs[0].key == "id"@ && fs[0].value is Text && fs[1].key == "new_capacity"@ && fs[1].value is Uint {
        Some(
            CourseCapacityChangedView {
                id: fs[0].value->Text_0,
                new_capacity: fs[1].value->Uint_0,
            },
        )
    } else {
        None
    }
}

/// The event read back from its own record is itself.
pub proof fn lemma_course_capacity_changed_record_roundtrip(v: CourseCapacityChangedView)
    ensures
        course_capacity_changed_of(course_capacity_changed_record(v)) == Some(v),
{
}

/// The candidate event this event encodes to.
pub open spec fn course_capacity_changed_candidate(v: CourseCapacityChangedView) -> Result<CandidateView, Error> {
    if v.id.len() == 0 {
        Err(Error::InvalidTag)
    } else if !record_encodable(course_capacity_changed_record(v)) {
        Err(Error::Serialization)
    } else {
        Ok(
            CandidateView {
                data: record_bytes(course_capacity_changed_record(v)),
                identifier: CourseCapacityChanged::kind(),
                tags: seq![("course"@, v.id)],
                version: 0,
            },
        )
    }
}

impl CourseCapacityChanged {
    /// The kind of these events.
    pub open spec fn kind() -> Seq<char> {
        "course_capacity_changed"@
    }

    /// The interned kind identifier.
    pub fn identifier() -> (r: Identifier)
        ensures
            r@ == Self::kind(),
    {
        proof {
            reveal_strlit("course_capacity_changed");
            assert(valid_identifier("course_capacity_changed"@));
        }
        Identifier::new_valid("course_capacity_changed")
    }

    /// The event's correlation tags: its course.
    pub fn tags(&self) -> (r: Result<Vec<Tag>, Error>)
        ensures
            r is Ok <==> self.id@.len() > 0,
            r matches Ok(v) ==> tag_views(v@) == seq![("course"@, self.id@)],
            r matches Err(e) ==> e == Error::InvalidTag,
    {
        let t = tag_course(self.id.as_str())?;
        let mut tags: Vec<Tag> = Vec::new();
        tags.push(t);
        proof {
            assert(tag_views(tags@) =~= seq![("course"@, self.id@)]);
        }
        Ok(tags)
    }

    /// The event as a record.
    pub fn to_record(&self) -> (r: Record)
        ensures
            r@ == course_capacity_changed_record(self@),
    {
        proof {
            reveal_strlit("id");
            reveal_strlit("new_capacity");
            assert(valid_identifier("id"@));
            assert(valid_identifier("new_capacity"@));
        }
        let mut r = Record::new();
        r.push(Field::new(Identifier::new_valid("id"), FieldValue::Text(self.id.clone())));
        r.push(Field::new(Identifier::new_valid("new_capacity"), FieldValue::Uint(self.new_capacity)));
        proof {
            assert(r@ =~= course_capacity_changed_record(self@));
        }
        r
    }

    /// Read the event back out of a record.
    pub fn from_record(r: &Record) -> (res: Option<CourseCapacityChanged>)
        ensures
            res is Some <==> course_capacity_changed_of(r@) is Some,
            res matches Some(v) ==> Some(v@) == course_capacity_changed_of(r@),
    {
        proof {
            reveal_strlit("id");
            reveal_strlit("new_capacity");
            assert(valid_identifier("id"@));
            assert(valid_identifier("new_capacity"@));
        }
        if r.len() != 2 {
            return None;
        }
        let key_id = Identifier::new_valid("id");
        let key_new_capacity = Identifier::new_valid("new_capacity");
        if !(r.field(0).key() == &key_id && r.field(1).key() == &key_new_capacity) {
            return None;
        }
        let id = match r.field(0).value() {
            FieldValue::Text(s) => s.clone(),
            _ => {
                return None;
            },
        };
        let new_capacity = match r.field(1).value() {
            FieldValue::Uint(x) => *x,
            _ => {
                return None;
            },
        };
        Some(CourseCapacityChanged { id, new_capacity })
    }

    /// Encode the event as a candidate for the log.
    pub fn to_candidate(&self) -> (res: Result<CandidateEvent, Error>)
        ensures
            res is Ok <==> course_capacity_changed_candidate(self@) is Ok,
            res matches Ok(ev) ==> ev@ == course_capacity_changed_candidate(self@)->Ok_0,
            res matches Err(e) ==> e == course_capacity_changed_candidate(self@)->Err_0,
    {
        let tags = self.tags()?;
        let record = self.to_record();
        crate::codec::encode(&JsonCodec, &record, Self::identifier(), tags)
    }
}

impl Clone for CourseCapacityChanged {
    fn clone(&self) -> (r: Self)
        ensures
            r == *self,
    {
        CourseCapacityChanged { id: self.id.clone(), new_capacity: self.new_capacity }
    }
}

/// Mathematical model: a student subscribed to a course.
pub struct StudentSubscribedView {
    pub course_id: Seq<char>,
    pub student_id: Seq<char>,
}

/// A student subscribed to a course.
#[derive(Debug)]
pub struct StudentSubscribedToCourse {
    pub course_id: String,
    pub student_id: String,
}

impl View for StudentSubscribedToCourse {
    type V = StudentSubscribedView;

    open spec fn view(&self) -> StudentSubscribedView {
        StudentSubscribedView { course_id: self.course_id@, student_id: self.student_id@ }
    }
}

/// The record shape of the event.
pub open spec fn student_subscribed_record(v: StudentSubscribedView) -> Seq<FieldView> {
    seq![
        FieldView { key: "course_id"@, value: ValueView::Text(v.course_id) },
        FieldView { key: "student_id"@, value: ValueView::Text(v.student_id) },
    ]
}

/// Reading the event out of a record.
pub open spec fn student_subscribed_of(fs: Seq<FieldView>) -> Option<StudentSubscribedView> {
    if fs.len() == 2 && fs[0].key == "course_id"@ && fs[0].value is Text && fs[1].key == "student_id"@ && fs[1].value is Text {
        Some(
            StudentSubscribedView {
                course_id: fs[0].value->Text_0,
                student_id: fs[1].value->Text_0,
            },
        )
    } else {
        None
    }
}

/// The event read back from its own record is itself.
pub proof fn lemma_student_subscribed_record_roundtrip(v: StudentSubscribedView)
    ensures
        student_subscribed_of(student_subscribed_record(v)) == Some(v),
{
}

/// The candidate event this event encodes to.
pub open spec fn student_subscribed_candidate(v: StudentSubscribedView) -> Result<CandidateView, Error> {
    if v.course_id.len() == 0 || v.student_id.len() == 0 {
        Err(Error::InvalidTag)
    } else if !record_encodable(student_subscribed_record(v)) {
        Err(Error::Serialization)
    } else {
        Ok(
            CandidateView {
                data: record_bytes(student_subscribed_record(v)),
                identifier: StudentSubscribedToCourse::kind(),
                tags: seq![("course"@, v.course_id), ("student"@, v.student_id)],
                version: 0,
            },
        )
    }
}

impl StudentSubscribedToCourse {
    /// The kind of these events.
    pub open spec fn kind() -> Seq<char> {
        "student_subscribed_to_course"@
    }

    /// The interned kind identifier.
    pub fn identifier() -> (r: Identifier)
        ensures
            r@ == Self::kind(),
    {
        proof {
            reveal_strlit("student_subscribed_to_course");
            assert(valid_identifier("student_subscribed_to_course"@));
        }
        Identifier::new_valid("student_subscribed_to_course")
    }

    /// The event's correlation tags: its course and its student.
    pub fn tags(&self) -> (r: Result<Vec<Tag>, Error>)
        ensures
            r is Ok <==> self.course_id@.len() > 0 && self.student_id@.len() > 0,
            r matches Ok(v) ==> tag_views(v@) == seq![
                ("course"@, self.course_id@),
                ("student"@, self.student_id@),
            ],
            r matches Err(e) ==> e == Error::InvalidTag,
    {
        let tc = tag_course(self.course_id.as_str())?;
        let ts = tag_student(self.student_id.as_str())?;
        let mut tags: Vec<Tag> = Vec::new();
        tags.push(tc);
        tags.push(ts);
        proof {
            assert(tag_views(tags@) =~= seq![
                ("course"@, self.course_id@),
                ("student"@, self.student_id@),
            ]);
        }
        Ok(tags)
    }

    /// The event as a record.
    pub fn to_record(&self) -> (r: Record)
        ensures
            r@ == student_subscribed_record(self@),
    {
        proof {
            reveal_strlit("course_id");
            reveal_strlit("student_id");
            assert(valid_identifier("course_id"@));
            assert(valid_identifier("student_id"@));
        }
        let mut r = Record::new();
        r.push(Field::new(Identifier::new_valid("course_id"), FieldValue::Text(self.course_id.clone())));
        r.push(Field::new(Identifier::new_valid("student_id"), FieldValue::Text(self.student_id.clone())));
        proof {
            assert(r@ =~= student_subscribed_record(self@));
        }
        r
    }

    /// Read the event back out of a record.
    pub fn from_record(r: &Record) -> (res: Option<StudentSubscribedToCourse>)
        ensures
            res is Some <==> student_subscribed_of(r@) is Some,
            res matches Some(v) ==> Some(v@) == student_subscribed_of(r@),
    {
        proof {
            reveal_strlit("course_id");
            reveal_strlit("student_id");
            assert(valid_identifier("course_id"@));
            assert(valid_identifier("student_id"@));
        }
        if r.len() != 2 {
            return None;
        }
        let key_course_id = Identifier::new_valid("course_id");
        let key_student_id = Identifier::new_valid("student_id");
        if !(r.field(0).key() == &key_course_id && r.field(1).key() == &key_student_id) {
            return None;
        }
        let course_id = match r.field(0).value() {
            FieldValue::Text(s) => s.clone(),
            _ => {
                return None;
            },
        };
        let student_id = match r.field(1).value() {
            FieldValue::Text(s) => s.clone(),
            _ => {
                return None;
            },
        };
        Some(StudentSubscribedToCourse { course_id, student_id })
    }

    /// Encode the event as a candidate for the log.
    pub fn to_candidate(&self) -> (res: Result<CandidateEvent, Error>)
        ensures
            res is Ok <==> student_subscribed_candidate(self@) is Ok,
            res matches Ok(ev) ==> ev@ == student_subscribed_candidate(self@)->Ok_0,
            res matches Err(e) ==> e == student_subscribed_candidate(self@)->Err_0,
    {
        let tags = self.tags()?;
        let record = self.to_record();
        crate::codec::encode(&JsonCodec, &record, Self::identifier(), tags)
    }
}

impl Clone for StudentSubscribedToCourse {
    fn clone(&self) -> (r: Self)
        ensures
            r == *self,
    {
        StudentSubscribedToCourse { course_id: self.course_id.clone(), student_id: self.student_id.clone() }
    }
}


/// Mathematical model of a decoded course event.
pub enum CourseEventView {
    Registered(CourseRegisteredView),
    Defined(CourseDefinedView),
    CapacityChanged(CourseCapacityChangedView),
    Subscribed(StudentSubscribedView),
}

/// The closed union of the domain's event kinds: what recognition decodes a
/// stored event into, shared by all projections of a context.
#[derive(Debug)]
pub enum CourseEvent {
    Registered(CourseRegistered),
    Defined(CourseDefined),
    CapacityChanged(CourseCapacityChanged),
    Subscribed(StudentSubscribedToCourse),
}

impl View for CourseEvent {
    type V = CourseEventView;

    open spec fn view(&self) -> CourseEventView {
        match self {
            CourseEvent::Registered(e) => CourseEventView::Registered(e@),
            CourseEvent::Defined(e) => CourseEventView::Defined(e@),
            CourseEvent::CapacityChanged(e) => CourseEventView::CapacityChanged(e@),
            CourseEvent::Subscribed(e) => CourseEventView::Subscribed(e@),
        }
    }
}

/// What decoding a stored event into the course union yields: the typed view
/// for a declared kind, nothing for a foreign kind, or the decoding error.
pub open spec fn course_event_of(e: EventView) -> Result<Option<CourseEventView>, Error> {
    if e.identifier == CourseRegistered::kind() {
        match parse_record(e.data) {
            Some(fs) => match course_registered_of(fs) {
                Some(v) => Ok(Some(CourseEventView::Registered(v))),
                None => Err(Error::Deserialization),
            },
            None => Err(Error::Deserialization),
        }
    } else if e.identifier == CourseDefined::kind() {
        match parse_record(e.data) {
            Some(fs) => match course_defined_of(fs) {
                Some(v) => Ok(Some(CourseEventView::Defined(v))),
                None => Err(Error::Deserialization),
            },
            None => Err(Error::Deserialization),
        }
    } else if e.identifier == CourseCapacityChanged::kind() {
        match parse_record(e.data) {
            Some(fs) => match course_capacity_changed_of(fs) {
                Some(v) => Ok(Some(CourseEventView::CapacityChanged(v))),
                None => Err(Error::Deserialization),
            },
            None => Err(Error::Deserialization),
        }
    } else if e.identifier == StudentSubscribedToCourse::kind() {
        match parse_record(e.data) {
            Some(fs) => match student_subscribed_of(fs) {
                Some(v) => Ok(Some(CourseEventView::Subscribed(v))),
                None => Err(Error::Deserialization),
            },
            None => Err(Error::Deserialization),
        }
    } else {
        Ok(None)
    }
}

/// Decode one stored event into the course union. Every projection recognises
/// through this one function, so a context decodes each event at most once
/// and hands every sibling the same payload.
pub fn recognize_course_event(ev: &EventMasked) -> (res: Result<
    Option<DispatchEvent<CourseEvent>>,
    Error,
>)
    ensures
        res is Ok <==> course_event_of(ev@.event) is Ok,
        res matches Ok(r) ==> (match r {
            Some(de) => course_event_of(ev@.event) == Ok::<_, Error>(Some(de.event@))
                && de.position.value == ev@.event.position && de.timestamp.value
                == ev@.event.timestamp,
            None => course_event_of(ev@.event) == Ok::<Option<CourseEventView>, Error>(None),
        }),
        res matches Err(e) ==> e == course_event_of(ev@.event)->Err_0,
{
    let event = ev.event();
    let codec = JsonCodec;
    let reg = CourseRegistered::identifier();
    let def = CourseDefined::identifier();
    let cap = CourseCapacityChanged::identifier();
    let sub = StudentSubscribedToCourse::identifier();
    let position = event.position();
    let timestamp = event.timestamp();
    let id = event.identifier();
    if id == &reg {
        let rec = match codec.decode_data(event.data()) {
            Ok(r) => r,
            Err(_) => {
                return Err(Error::Deserialization);
            },
        };
        match CourseRegistered::from_record(&rec) {
            Some(v) => Ok(
                Some(DispatchEvent { event: CourseEvent::Registered(v), position, timestamp }),
            ),
            None => Err(Error::Deserialization),
        }
    } else if id == &def {
        let rec = match codec.decode_data(event.data()) {
            Ok(r) => r,
            Err(_) => {
                return Err(Error::Deserialization);
            },
        };
        match CourseDefined::from_record(&rec) {
            Some(v) => Ok(Some(DispatchEvent { event: CourseEvent::Defined(v), position, timestamp })),
            None => Err(Error::Deserialization),
        }
    } else if id == &cap {
        let rec = match codec.decode_data(event.data()) {
            Ok(r) => r,
            Err(_) => {
                return Err(Error::Deserialization);
            },
        };
        match CourseCapacityChanged::from_record(&rec) {
            Some(v) => Ok(
                Some(DispatchEvent { event: CourseEvent::CapacityChanged(v), position, timestamp }),
            ),
            None => Err(Error::Deserialization),
        }
    } else if id == &sub {
        let rec = match codec.decode_data(event.data()) {
            Ok(r) => r,
            Err(_) => {
                return Err(Error::Deserialization);
            },
        };
        match StudentSubscribedToCourse::from_record(&rec) {
            Some(v) => Ok(
                Some(DispatchEvent { event: CourseEvent::Subscribed(v), position, timestamp }),
            ),
            None => Err(Error::Deserialization),
        }
    } else {
        Ok(None)
    }
}

/// Whether one course exists: folds its registrations and definitions.
#[derive(Debug)]
pub struct CourseExists {
    pub exists: bool,
    pub id: String,
}

impl CourseExists {
    /// A fresh projection; nothing observed yet.
    pub fn new(id: String) -> (r: CourseExists)
        ensures
            r == (CourseExists { exists: false, id }),
    {
        CourseExists { exists: false, id }
    }
}

impl Clone for CourseExists {
    fn clone(&self) -> (r: Self)
        ensures
            r == *self,
    {
        CourseExists { exists: self.exists, id: self.id.clone() }
    }
}

impl Select for CourseExists {
    open spec fn selector_of(&self) -> Result<SelectorView, Error> {
        if self.id@.len() == 0 {
            Err(Error::InvalidTag)
        } else {
            Ok(
                SelectorView {
                    specifiers: seq![CourseRegistered::kind(), CourseDefined::kind()],
                    filters: seq![("course"@, self.id@)],
                },
            )
        }
    }

    fn select(&self) -> (res: Result<Selector, Error>) {
        let mut tags: Vec<Tag> = Vec::new();
        let t = match tag_course(self.id.as_str()) {
            Ok(t) => t,
            Err(e) => {
                return Err(e);
            },
        };
        tags.push(t);
        let mut specs: Vec<Specifier> = Vec::new();
        specs.push(Specifier::new(CourseRegistered::identifier()));
        specs.push(Specifier::new(CourseDefined::identifier()));
        match Selector::specifiers_and_tags(specs, tags) {
            Ok(s) => {
                proof {
                    assert(s@.specifiers =~= seq![CourseRegistered::kind(), CourseDefined::kind()]);
                    assert(s@.filters =~= seq![("course"@, self.id@)]);
                }
                Ok(s)
            },
            Err(_) => {
                proof {
                    assert(false);
                }
                Err(Error::InvalidSelector)
            },
        }
    }
}

impl Recognize for CourseExists {
    type Payload = CourseEvent;

    type PayloadView = CourseEventView;

    open spec fn payload_view(p: CourseEvent) -> CourseEventView {
        p@
    }

    open spec fn recognize_of(&self, e: EventView) -> Result<Option<CourseEventView>, Error> {
        if e.identifier == CourseRegistered::kind() || e.identifier == CourseDefined::kind() {
            course_event_of(e)
        } else {
            Ok(None)
        }
    }

    fn recognize(&self, ev: &EventMasked) -> (res: Result<Option<DispatchEvent<CourseEvent>>, Error>) {
        let k_0 = CourseRegistered::identifier();
        let k_1 = CourseDefined::identifier();
        let id = ev.event().identifier();
        if id == &k_0 || id == &k_1 {
            recognize_course_event(ev)
        } else {
            Ok(None)
        }
    }
}

impl Update<CourseRegistered> for CourseExists {
    open spec fn update_of(self, e: CourseRegisteredView, position: u64, timestamp: u64) -> Self {
        CourseExists { exists: true, id: self.id }
    }

    fn update(&mut self, ev: UpdateEvent<'_, CourseRegistered>) {
        self.exists = true;
    }
}

impl Update<CourseDefined> for CourseExists {
    open spec fn update_of(self, e: CourseDefinedView, position: u64, timestamp: u64) -> Self {
        CourseExists { exists: true, id: self.id }
    }

    fn update(&mut self, ev: UpdateEvent<'_, CourseDefined>) {
        self.exists = true;
    }
}

impl Dispatch for CourseExists {
    open spec fn dispatch_of(self, p: CourseEventView, position: u64, timestamp: u64) -> Self {
        match p {
            CourseEventView::Registered(x) => <Self as Update<CourseRegistered>>::update_of(self, x, position, timestamp),
            CourseEventView::Defined(x) => <Self as Update<CourseDefined>>::update_of(self, x, position, timestamp),
            _ => self,
        }
    }

    fn dispatch(&mut self, ev: &DispatchEvent<CourseEvent>) {
        match &ev.event {
            CourseEvent::Registered(e) => self.update(UpdateEvent { event: e, position: ev.position, timestamp: ev.timestamp }),
            CourseEvent::Defined(e) => self.update(UpdateEvent { event: e, position: ev.position, timestamp: ev.timestamp }),
            _ => {},
        }
    }
}

impl Projection for CourseExists {

}

/// The current capacity of one course: folds registrations, definitions and capacity changes.
#[derive(Debug)]
pub struct CourseCapacity {
    pub capacity: u64,
    pub id: String,
}

impl CourseCapacity {
    /// A fresh projection; nothing observed yet.
    pub fn new(id: String) -> (r: CourseCapacity)
        ensures
            r == (CourseCapacity { capacity: 0, id }),
    {
        CourseCapacity { capacity: 0, id }
    }
}

impl Clone for CourseCapacity {
    fn clone(&self) -> (r: Self)
        ensures
            r == *self,
    {
        CourseCapacity { capacity: self.capacity, id: self.id.clone() }
    }
}

impl Select for CourseCapacity {
    open spec fn selector_of(&self) -> Result<SelectorView, Error> {
        if self.id@.len() == 0 {
            Err(Error::InvalidTag)
        } else {
            Ok(
                SelectorView {
                    specifiers: seq![CourseRegistered::kind(), CourseDefined::kind(), CourseCapacityChanged::kind()],
                    filters: seq![("course"@, self.id@)],
                },
            )
        }
    }

    fn select(&self) -> (res: Result<Selector, Error>) {
        let mut tags: Vec<Tag> = Vec::new();
        let t = match tag_course(self.id.as_str()) {
            Ok(t) => t,
            Err(e) => {
                return Err(e);
            },
        };
        tags.push(t);
        let mut specs: Vec<Specifier> = Vec::new();
        specs.push(Specifier::new(CourseRegistered::identifier()));
        specs.push(Specifier::new(CourseDefined::identifier()));
        specs.push(Specifier::new(CourseCapacityChanged::identifier()));
        match Selector::specifiers_and_tags(specs, tags) {
            Ok(s) => {
                proof {
                    assert(s@.specifiers =~= seq![CourseRegistered::kind(), CourseDefined::kind(), CourseCapacityChanged::kind()]);
                    assert(s@.filters =~= seq![("course"@, self.id@)]);
                }
                Ok(s)
            },
            Err(_) => {
                proof {
                    assert(false);
                }
                Err(Error::InvalidSelector)
            },
        }
    }
}

impl Recognize for CourseCapacity {
    type Payload = CourseEvent;

    type PayloadView = CourseEventView;

    open spec fn payload_view(p: CourseEvent) -> CourseEventView {
        p@
    }

    open spec fn recognize_of(&self, e: EventView) -> Result<Option<CourseEventView>, Error> {
        if e.identifier == CourseRegistered::kind() || e.identifier == CourseDefined::kind() || e.identifier == CourseCapacityChanged::kind() {
            course_event_of(e)
        } else {
            Ok(None)
        }
    }

    fn recognize(&self, ev: &EventMasked) -> (res: Result<Option<DispatchEvent<CourseEvent>>, Error>) {
        let k_0 = CourseRegistered::identifier();
        let k_1 = CourseDefined::identifier();
        let k_2 = CourseCapacityChanged::identifier();
        let id = ev.event().identifier();
        if id == &k_0 || id == &k_1 || id == &k_2 {
            recognize_course_event(ev)
        } else {
            Ok(None)
        }
    }
}

impl Update<CourseRegistered> for CourseCapacity {
    open spec fn update_of(self, e: CourseRegisteredView, position: u64, timestamp: u64) -> Self {
        CourseCapacity { capacity: e.capacity, id: self.id }
    }

    fn update(&mut self, ev: UpdateEvent<'_, CourseRegistered>) {
        self.capacity = ev.event.capacity;
    }
}

impl Update<CourseDefined> for CourseCapacity {
    open spec fn update_of(self, e: CourseDefinedView, position: u64, timestamp: u64) -> Self {
        CourseCapacity { capacity: e.capacity, id: self.id }
    }

    fn update(&mut self, ev: UpdateEvent<'_, CourseDefined>) {
        self.capacity = ev.event.capacity;
    }
}

impl Update<CourseCapacityChanged> for CourseCapacity {
    open spec fn update_of(self, e: CourseCapacityChangedView, position: u64, timestamp: u64) -> Self {
        CourseCapacity { capacity: e.new_capacity, id: self.id }
    }

    fn update(&mut self, ev: UpdateEvent<'_, CourseCapacityChanged>) {
        self.capacity = ev.event.new_capacity;
    }
}

impl Dispatch for CourseCapacity {
    open spec fn dispatch_of(self, p: CourseEventView, position: u64, timestamp: u64) -> Self {
        match p {
            CourseEventView::Registered(x) => <Self as Update<CourseRegistered>>::update_of(self, x, position, timestamp),
            CourseEventView::Defined(x) => <Self as Update<CourseDefined>>::update_of(self, x, position, timestamp),
            CourseEventView::CapacityChanged(x) => <Self as Update<CourseCapacityChanged>>::update_of(self, x, position, timestamp),
            _ => self,
        }
    }

    fn dispatch(&mut self, ev: &DispatchEvent<CourseEvent>) {
        match &ev.event {
            CourseEvent::Registered(e) => self.update(UpdateEvent { event: e, position: ev.position, timestamp: ev.timestamp }),
            CourseEvent::Defined(e) => self.update(UpdateEvent { event: e, position: ev.position, timestamp: ev.timestamp }),
            CourseEvent::CapacityChanged(e) => self.update(UpdateEvent { event: e, position: ev.position, timestamp: ev.timestamp }),
            _ => {},
        }
    }
}

impl Projection for CourseCapacity {

}

/// How many students subscribed to one course; saturates at the integer bound.
#[derive(Debug)]
pub struct NumberOfCourseSubscriptions {
    pub course_id: String,
    pub count: u64,
}

impl NumberOfCourseSubscriptions {
    /// A fresh projection; nothing observed yet.
    pub fn new(course_id: String) -> (r: NumberOfCourseSubscriptions)
        ensures
            r == (NumberOfCourseSubscriptions { course_id, count: 0 }),
    {
        NumberOfCourseSubscriptions { course_id, count: 0 }
    }
}

impl Clone for NumberOfCourseSubscriptions {
    fn clone(&self) -> (r: Self)
        ensures
            r == *self,
    {
        NumberOfCourseSubscriptions { course_id: self.course_id.clone(), count: self.count }
    }
}

impl Select for NumberOfCourseSubscriptions {
    open spec fn selector_of(&self) -> Result<SelectorView, Error> {
        if self.course_id@.len() == 0 {
            Err(Error::InvalidTag)
        } else {
            Ok(
                SelectorView {
                    specifiers: seq![StudentSubscribedToCourse::kind()],
                    filters: seq![("course"@, self.course_id@)],
                },
            )
        }
    }

    fn select(&self) -> (res: Result<Selector, Error>) {
        let mut tags: Vec<Tag> = Vec::new();
        let t = match tag_course(self.course_id.as_str()) {
            Ok(t) => t,
            Err(e) => {
                return Err(e);
            },
        };
        tags.push(t);
        let mut specs: Vec<Specifier> = Vec::new();
        specs.push(Specifier::new(StudentSubscribedToCourse::identifier()));
        match Selector::specifiers_and_tags(specs, tags) {
            Ok(s) => {
                proof {
                    assert(s@.specifiers =~= seq![StudentSubscribedToCourse::kind()]);
                    assert(s@.filters =~= seq![("course"@, self.course_id@)]);
                }
                Ok(s)
            },
            Err(_) => {
                proof {
                    assert(false);
                }
                Err(Error::InvalidSelector)
            },
        }
    }
}

impl Recognize for NumberOfCourseSubscriptions {
    type Payload = CourseEvent;

    type PayloadView = CourseEventView;

    open spec fn payload_view(p: CourseEvent) -> CourseEventView {
        p@
    }

    open spec fn recognize_of(&self, e: EventView) -> Result<Option<CourseEventView>, Error> {
        if e.identifier == StudentSubscribedToCourse::kind() {
            course_event_of(e)
        } else {
            Ok(None)
        }
    }

    fn recognize(&self, ev: &EventMasked) -> (res: Result<Option<DispatchEvent<CourseEvent>>, Error>) {
        let k_0 = StudentSubscribedToCourse::identifier();
        let id = ev.event().identifier();
        if id == &k_0 {
            recognize_course_event(ev)
        } else {
            Ok(None)
        }
    }
}

impl Update<StudentSubscribedToCourse> for NumberOfCourseSubscriptions {
    open spec fn update_of(self, e: StudentSubscribedView, position: u64, timestamp: u64) -> Self {
        if self.count < u64::MAX {
            NumberOfCourseSubscriptions { course_id: self.course_id, count: (self.count + 1) as u64 }
        } else {
            self
        }
    }

    fn update(&mut self, ev: UpdateEvent<'_, StudentSubscribedToCourse>) {
        if self.count < u64::MAX { self.count = self.count + 1; }
    }
}

impl Dispatch for NumberOfCourseSubscriptions {
    open spec fn dispatch_of(self, p: CourseEventView, position: u64, timestamp: u64) -> Self {
        match p {
            CourseEventView::Subscribed(x) => <Self as Update<StudentSubscribedToCourse>>::update_of(self, x, position, timestamp),
            _ => self,
        }
    }

    fn dispatch(&mut self, ev: &DispatchEvent<CourseEvent>) {
        match &ev.event {
            CourseEvent::Subscribed(e) => self.update(UpdateEvent { event: e, position: ev.position, timestamp: ev.timestamp }),
            _ => {},
        }
    }
}

impl Projection for NumberOfCourseSubscriptions {

}

/// How many courses one student subscribed to; saturates at the integer bound.
#[derive(Debug)]
pub struct NumberOfStudentSubscriptions {
    pub student_id: String,
    pub count: u64,
}

impl NumberOfStudentSubscriptions {
    /// A fresh projection; nothing observed yet.
    pub fn new(student_id: String) -> (r: NumberOfStudentSubscriptions)
        ensures
            r == (NumberOfStudentSubscriptions { student_id, count: 0 }),
    {
        NumberOfStudentSubscriptions { student_id, count: 0 }
    }
}

impl Clone for NumberOfStudentSubscriptions {
    fn clone(&self) -> (r: Self)
        ensures
            r == *self,
    {
        NumberOfStudentSubscriptions { student_id: self.student_id.clone(), count: self.count }
    }
}

impl Select for NumberOfStudentSubscriptions {
    open spec fn selector_of(&self) -> Result<SelectorView, Error> {
        if self.student_id@.len() == 0 {
            Err(Error::InvalidTag)
        } else {
            Ok(
                SelectorView {
                    specifiers: seq![StudentSubscribedToCourse::kind()],
                    filters: seq![("student"@, self.student_id@)],
                },
            )
        }
    }

    fn select(&self) -> (res: Result<Selector, Error>) {
        let mut tags: Vec<Tag> = Vec::new();
        let t = match tag_student(self.student_id.as_str()) {
            Ok(t) => t,
            Err(e) => {
                return Err(e);
            },
        };
        tags.push(t);
        let mut specs: Vec<Specifier> = Vec::new();
        specs.push(Specifier::new(StudentSubscribedToCourse::identifier()));
        match Selector::specifiers_and_tags(specs, tags) {
            Ok(s) => {
                proof {
                    assert(s@.specifiers =~= seq![StudentSubscribedToCourse::kind()]);
                    assert(s@.filters =~= seq![("student"@, self.student_id@)]);
                }
                Ok(s)
            },
            Err(_) => {
                proof {
                    assert(false);
                }
                Err(Error::InvalidSelector)
            },
        }
    }
}

impl Recognize for NumberOfStudentSubscriptions {
    type Payload = CourseEvent;

    type PayloadView = CourseEventView;

    open spec fn payload_view(p: CourseEvent) -> CourseEventView {
        p@
    }

    open spec fn recognize_of(&self, e: EventView) -> Result<Option<CourseEventView>, Error> {
        if e.identifier == StudentSubscribedToCourse::kind() {
            course_event_of(e)
        } else {
            Ok(None)
        }
    }

    fn recognize(&self, ev: &EventMasked) -> (res: Result<Option<DispatchEvent<CourseEvent>>, Error>) {
        let k_0 = StudentSubscribedToCourse::identifier();
        let id = ev.event().identifier();
        if id == &k_0 {
            recognize_course_event(ev)
        } else {
            Ok(None)
        }
    }
}

impl Update<StudentSubscribedToCourse> for NumberOfStudentSubscriptions {
    open spec fn update_of(self, e: StudentSubscribedView, position: u64, timestamp: u64) -> Self {
        if self.count < u64::MAX {
            NumberOfStudentSubscriptions { student_id: self.student_id, count: (self.count + 1) as u64 }
        } else {
            self
        }
    }

    fn update(&mut self, ev: UpdateEvent<'_, StudentSubscribedToCourse>) {
        if self.count < u64::MAX { self.count = self.count + 1; }
    }
}

impl Dispatch for NumberOfStudentSubscriptions {
    open spec fn dispatch_of(self, p: CourseEventView, position: u64, timestamp: u64) -> Self {
        match p {
            CourseEventView::Subscribed(x) => <Self as Update<StudentSubscribedToCourse>>::update_of(self, x, position, timestamp),
            _ => self,
        }
    }

    fn dispatch(&mut self, ev: &DispatchEvent<CourseEvent>) {
        match &ev.event {
            CourseEvent::Subscribed(e) => self.update(UpdateEvent { event: e, position: ev.position, timestamp: ev.timestamp }),
            _ => {},
        }
    }
}

impl Projection for NumberOfStudentSubscriptions {

}

/// Whether one student already subscribed to one course.
#[derive(Debug)]
pub struct StudentAlreadySubscribed {
    pub subscribed: bool,
    pub course_id: String,
    pub student_id: String,
}

impl StudentAlreadySubscribed {
    /// A fresh projection; nothing observed yet.
    pub fn new(course_id: String, student_id: String) -> (r: StudentAlreadySubscribed)
        ensures
            r == (StudentAlreadySubscribed { subscribed: false, course_id, student_id }),
    {
        StudentAlreadySubscribed { subscribed: false, course_id, student_id }
    }
}

impl Clone for StudentAlreadySubscribed {
    fn clone(&self) -> (r: Self)
        ensures
            r == *self,
    {
        StudentAlreadySubscribed { subscribed: self.subscribed, course_id: self.course_id.clone(), student_id: self.student_id.clone() }
    }
}

impl Select for StudentAlreadySubscribed {
    open spec fn selector_of(&self) -> Result<SelectorView, Error> {
        if self.course_id@.len() == 0 || self.student_id@.len() == 0 {
            Err(Error::InvalidTag)
        } else {
            Ok(
                SelectorView {
                    specifiers: seq![StudentSubscribedToCourse::kind()],
                    filters: seq![("course"@, self.course_id@), ("student"@, self.student_id@)],
                },
            )
        }
    }

    fn select(&self) -> (res: Result<Selector, Error>) {
        let mut tags: Vec<Tag> = Vec::new();
        let tc = match tag_course(self.course_id.as_str()) {
            Ok(t) => t,
            Err(e) => {
                return Err(e);
            },
        };
        let ts = match tag_student(self.student_id.as_str()) {
            Ok(t) => t,
            Err(e) => {
                return Err(e);
            },
        };
        tags.push(tc);
        tags.push(ts);
        let mut specs: Vec<Specifier> = Vec::new();
        specs.push(Specifier::new(StudentSubscribedToCourse::identifier()));
        match Selector::specifiers_and_tags(specs, tags) {
            Ok(s) => {
                proof {
                    assert(s@.specifiers =~= seq![StudentSubscribedToCourse::kind()]);
                    assert(s@.filters =~= seq![("course"@, self.course_id@), ("student"@, self.student_id@)]);
                }
                Ok(s)
            },
            Err(_) => {
                proof {
                    assert(false);
                }
                Err(Error::InvalidSelector)
            },
        }
    }
}

impl Recognize for StudentAlreadySubscribed {
    type Payload = CourseEvent;

    type PayloadView = CourseEventView;

    open spec fn payload_view(p: CourseEvent) -> CourseEventView {
        p@
    }

    open spec fn recognize_of(&self, e: EventView) -> Result<Option<CourseEventView>, Error> {
        if e.identifier == StudentSubscribedToCourse::kind() {
            course_event_of(e)
        } else {
            Ok(None)
        }
    }

    fn recognize(&self, ev: &EventMasked) -> (res: Result<Option<DispatchEvent<CourseEvent>>, Error>) {
        let k_0 = StudentSubscribedToCourse::identifier();
        let id = ev.event().identifier();
        if id == &k_0 {
            recognize_course_event(ev)
        } else {
            Ok(None)
        }
    }
}

impl Update<StudentSubscribedToCourse> for StudentAlreadySubscribed {
    open spec fn update_of(self, e: StudentSubscribedView, position: u64, timestamp: u64) -> Self {
        StudentAlreadySubscribed { subscribed: true, course_id: self.course_id, student_id: self.student_id }
    }

    fn update(&mut self, ev: UpdateEvent<'_, StudentSubscribedToCourse>) {
        self.subscribed = true;
    }
}

impl Dispatch for StudentAlreadySubscribed {
    open spec fn dispatch_of(self, p: CourseEventView, position: u64, timestamp: u64) -> Self {
        match p {
            CourseEventView::Subscribed(x) => <Self as Update<StudentSubscribedToCourse>>::update_of(self, x, position, timestamp),
            _ => self,
        }
    }

    fn dispatch(&mut self, ev: &DispatchEvent<CourseEvent>) {
        match &ev.event {
            CourseEvent::Subscribed(e) => self.update(UpdateEvent { event: e, position: ev.position, timestamp: ev.timestamp }),
            _ => {},
        }
    }
}

impl Projection for StudentAlreadySubscribed {

}


/// The domain errors of the course decisions.
#[derive(Clone, Copy, Debug, PartialEq, Eq, Structural)]
pub enum CourseError {
    /// The course is already in the catalogue.
    AlreadyExists,
    /// The course is not in the catalogue.
    DoesNotExist,
    /// The course has no free places left.
    FullyBooked,
    /// The student already subscribed to this course.
    AlreadySubscribed,
    /// The student reached the subscription limit.
    StudentLimitReached,
    /// The new capacity equals the current one; nothing to change.
    CapacityUnchanged,
    /// An engine failure surfaced through the decision.
    Engine(Error),
}

impl CourseError {
    /// A short diagnostic name for the error.
    pub fn describe(&self) -> (r: &'static str)
        ensures
            r@.len() > 0,
    {
        proof {
            reveal_strlit("course already exists");
            reveal_strlit("course does not exist");
            reveal_strlit("course fully booked");
            reveal_strlit("student already subscribed");
            reveal_strlit("student reached course limit");
            reveal_strlit("capacity equals the current capacity");
        }
        match self {
            CourseError::AlreadyExists => "course already exists",
            CourseError::DoesNotExist => "course does not exist",
            CourseError::FullyBooked => "course fully booked",
            CourseError::AlreadySubscribed => "student already subscribed",
            CourseError::StudentLimitReached => "student reached course limit",
            CourseError::CapacityUnchanged => "capacity equals the current capacity",
            CourseError::Engine(e) => e.describe(),
        }
    }
}

/// The payload one event of the course union decodes to, however it is
/// cached.
pub open spec fn course_cached_view(c: Option<DispatchEvent<CourseEvent>>) -> Option<
    CourseEventView,
> {
    match c {
        None => None,
        Some(d) => Some(d.event@),
    }
}

/// Put a new course into the catalogue — unless it is already there.
#[derive(Debug)]
pub struct RegisterCourse {
    pub id: String,
    pub title: String,
    pub capacity: u64,
}

/// The context of [`RegisterCourse`]: the append buffer and one projection.
#[derive(Debug)]
pub struct RegisterCourseContext {
    pub events: Events,
    pub course_exists: CourseExists,
}

impl crate::decision::Context for RegisterCourse {
    type Context = RegisterCourseContext;

    type ContextView = CourseExists;

    open spec fn ctx_view(c: RegisterCourseContext) -> CourseExists {
        c.course_exists
    }

    open spec fn buffered(c: RegisterCourseContext) -> Seq<CandidateView> {
        c.events@
    }

    open spec fn context_init(&self) -> CourseExists {
        CourseExists { exists: false, id: self.id }
    }

    fn context(&self) -> (c: RegisterCourseContext) {
        RegisterCourseContext { events: Events::new(), course_exists: CourseExists::new(self.id.clone()) }
    }

    fn take_events(c: RegisterCourseContext) -> (evs: Vec<CandidateEvent>) {
        c.events.take()
    }
}

impl crate::decision::Select for RegisterCourse {
    open spec fn selection_of(&self, cv: CourseExists) -> Result<Seq<SelectorView>, Error> {
        match cv.selector_of() {
            Ok(s) => Ok(seq![s]),
            Err(e) => Err(e),
        }
    }

    fn select(&self, c: &RegisterCourseContext) -> (res: Result<Selection, Error>) {
        let s = match c.course_exists.select() {
            Ok(s) => s,
            Err(e) => {
                return Err(e);
            },
        };
        let ghost sv = s@;
        let mut selectors: Vec<Selector> = Vec::new();
        selectors.push(s);
        match Selection::new(selectors) {
            Ok(sel) => {
                proof {
                    assert(sel@ =~= seq![sv]);
                }
                Ok(sel)
            },
            Err(_) => {
                proof {
                    assert(false);
                }
                Err(Error::InvalidSelector)
            },
        }
    }
}

impl crate::decision::Update for RegisterCourse {
    open spec fn update_of(&self, cv: CourseExists, e: EventMaskedView) -> Result<
        CourseExists,
        Error,
    > {
        match route_step(cv, None, 0 < e.mask.len() && e.mask[0], e.event) {
            Ok((p0, _)) => Ok(p0),
            Err(er) => Err(er),
        }
    }

    fn update(&self, c: &mut RegisterCourseContext, ev: &EventMasked) -> (res: Result<(), Error>) {
        let mut cached: Option<DispatchEvent<CourseEvent>> = None;
        let b0 = ev.mask_bit(0);
        match route(&mut c.course_exists, &mut cached, b0, ev) {
            Ok(()) => Ok(()),
            Err(e) => Err(e),
        }
    }
}

/// What registering a course yields on a projected state: a refusal when the
/// course exists, otherwise success and one `course_registered` event.
impl crate::decision::Act for RegisterCourse {
    type Ok = ();

    type Err = CourseError;

    open spec fn err_of(e: Error) -> CourseError {
        CourseError::Engine(e)
    }

    fn stream_err(e: Error) -> (r: CourseError) {
        CourseError::Engine(e)
    }

    open spec fn act_result(&self, cv: CourseExists) -> Result<(), CourseError> {
        if cv.exists {
            Err(CourseError::AlreadyExists)
        } else {
            match course_registered_candidate(self.registered_view()) {
                Ok(_) => Ok(()),
                Err(e) => Err(CourseError::Engine(e)),
            }
        }
    }

    open spec fn act_appends(&self, cv: CourseExists) -> Seq<CandidateView> {
        if cv.exists {
            Seq::empty()
        } else {
            match course_registered_candidate(self.registered_view()) {
                Ok(c) => seq![c],
                Err(_) => Seq::empty(),
            }
        }
    }

    open spec fn act_state(&self, cv: CourseExists) -> CourseExists {
        cv
    }

    fn act(&mut self, c: &mut RegisterCourseContext) -> (res: Result<(), CourseError>) {
        if c.course_exists.exists {
            proof {
                assert(c.events@ =~= c.events@ + Seq::<CandidateView>::empty());
            }
            return Err(CourseError::AlreadyExists);
        }
        let ev = CourseRegistered {
            id: self.id.clone(),
            title: self.title.clone(),
            capacity: self.capacity,
        };
        let cand = match ev.to_candidate() {
            Ok(cd) => cd,
            Err(e) => {
                proof {
                    assert(c.events@ =~= c.events@ + Seq::<CandidateView>::empty());
                }
                return Err(CourseError::Engine(e));
            },
        };
        let ghost pre = c.events@;
        let ghost cview = cand@;
        c.events.push(cand);
        proof {
            assert(c.events@ =~= pre + seq![cview]);
        }
        Ok(())
    }
}

impl RegisterCourse {
    /// The event this decision would append, as a model.
    pub open spec fn registered_view(&self) -> CourseRegisteredView {
        CourseRegisteredView { id: self.id@, title: self.title@, capacity: self.capacity }
    }
}


impl crate::decision::Decision for RegisterCourse {

}

/// Inspect the catalogue without writing: a read-only decision.
#[derive(Debug)]
pub struct LookupCourse {
    pub id: String,
}

/// The context of [`LookupCourse`]: the append buffer and one projection.
#[derive(Debug)]
pub struct LookupCourseContext {
    pub events: Events,
    pub course_exists: CourseExists,
}

impl crate::decision::Context for LookupCourse {
    type Context = LookupCourseContext;

    type ContextView = CourseExists;

    open spec fn ctx_view(c: LookupCourseContext) -> CourseExists {
        c.course_exists
    }

    open spec fn buffered(c: LookupCourseContext) -> Seq<CandidateView> {
        c.events@
    }

    open spec fn context_init(&self) -> CourseExists {
        CourseExists { exists: false, id: self.id }
    }

    fn context(&self) -> (c: LookupCourseContext) {
        LookupCourseContext { events: Events::new(), course_exists: CourseExists::new(self.id.clone()) }
    }

    fn take_events(c: LookupCourseContext) -> (evs: Vec<CandidateEvent>) {
        c.events.take()
    }
}

impl crate::decision::Select for LookupCourse {
    open spec fn selection_of(&self, cv: CourseExists) -> Result<Seq<SelectorView>, Error> {
        match cv.selector_of() {
            Ok(s) => Ok(seq![s]),
            Err(e) => Err(e),
        }
    }

    fn select(&self, c: &LookupCourseContext) -> (res: Result<Selection, Error>) {
        let s = match c.course_exists.select() {
            Ok(s) => s,
            Err(e) => {
                return Err(e);
            },
        };
        let ghost sv = s@;
        let mut selectors: Vec<Selector> = Vec::new();
        selectors.push(s);
        match Selection::new(selectors) {
            Ok(sel) => {
                proof {
                    assert(sel@ =~= seq![sv]);
                }
                Ok(sel)
            },
            Err(_) => {
                proof {
                    assert(false);
                }
                Err(Error::InvalidSelector)
            },
        }
    }
}

impl crate::decision::Update for LookupCourse {
    open spec fn update_of(&self, cv: CourseExists, e: EventMaskedView) -> Result<
        CourseExists,
        Error,
    > {
        match route_step(cv, None, 0 < e.mask.len() && e.mask[0], e.event) {
            Ok((p0, _)) => Ok(p0),
            Err(er) => Err(er),
        }
    }

    fn update(&self, c: &mut LookupCourseContext, ev: &EventMasked) -> (res: Result<(), Error>) {
        let mut cached: Option<DispatchEvent<CourseEvent>> = None;
        let b0 = ev.mask_bit(0);
        match route(&mut c.course_exists, &mut cached, b0, ev) {
            Ok(()) => Ok(()),
            Err(e) => Err(e),
        }
    }
}

/// Looking a course up never writes: the outcome is whether it exists.
impl crate::decision::Act for LookupCourse {
    type Ok = bool;

    type Err = CourseError;

    open spec fn err_of(e: Error) -> CourseError {
        CourseError::Engine(e)
    }

    fn stream_err(e: Error) -> (r: CourseError) {
        CourseError::Engine(e)
    }

    open spec fn act_result(&self, cv: CourseExists) -> Result<bool, CourseError> {
        Ok(cv.exists)
    }

    open spec fn act_appends(&self, cv: CourseExists) -> Seq<CandidateView> {
        Seq::empty()
    }

    open spec fn act_state(&self, cv: CourseExists) -> CourseExists {
        cv
    }

    fn act(&mut self, c: &mut LookupCourseContext) -> (res: Result<bool, CourseError>) {
        proof {
            assert(c.events@ =~= c.events@ + Seq::<CandidateView>::empty());
        }
        Ok(c.course_exists.exists)
    }
}


impl crate::decision::Decision for LookupCourse {

}


/// Subscribe a student to a course, guarding every business rule: the course
/// must exist, have a free place, not already hold this student, and the
/// student must be under the subscription limit.
#[derive(Debug)]
pub struct SubscribeStudentToCourse {
    pub course_id: String,
    pub student_id: String,
}

/// The projected state [`SubscribeStudentToCourse`] reads: one entry per
/// projection, in mask-bit order.
pub type SubscribeView = (
    CourseExists,
    CourseCapacity,
    NumberOfCourseSubscriptions,
    NumberOfStudentSubscriptions,
    StudentAlreadySubscribed,
);

/// The context of [`SubscribeStudentToCourse`]: the append buffer and five
/// projections, in the order that fixes their mask bits.
#[derive(Debug)]
pub struct SubscribeStudentToCourseContext {
    pub events: Events,
    pub course_exists: CourseExists,
    pub course_capacity: CourseCapacity,
    pub number_of_course_subscriptions: NumberOfCourseSubscriptions,
    pub number_of_student_subscriptions: NumberOfStudentSubscriptions,
    pub student_already_subscribed: StudentAlreadySubscribed,
}

impl crate::decision::Context for SubscribeStudentToCourse {
    type Context = SubscribeStudentToCourseContext;

    type ContextView = SubscribeView;

    open spec fn ctx_view(c: SubscribeStudentToCourseContext) -> SubscribeView {
        (
            c.course_exists,
            c.course_capacity,
            c.number_of_course_subscriptions,
            c.number_of_student_subscriptions,
            c.student_already_subscribed,
        )
    }

    open spec fn buffered(c: SubscribeStudentToCourseContext) -> Seq<CandidateView> {
        c.events@
    }

    open spec fn context_init(&self) -> SubscribeView {
        (
            CourseExists { exists: false, id: self.course_id },
            CourseCapacity { capacity: 0, id: self.course_id },
            NumberOfCourseSubscriptions { course_id: self.course_id, count: 0 },
            NumberOfStudentSubscriptions { student_id: self.student_id, count: 0 },
            StudentAlreadySubscribed {
                subscribed: false,
                course_id: self.course_id,
                student_id: self.student_id,
            },
        )
    }

    fn context(&self) -> (c: SubscribeStudentToCourseContext) {
        SubscribeStudentToCourseContext {
            events: Events::new(),
            course_exists: CourseExists::new(self.course_id.clone()),
            course_capacity: CourseCapacity::new(self.course_id.clone()),
            number_of_course_subscriptions: NumberOfCourseSubscriptions::new(
                self.course_id.clone(),
            ),
            number_of_student_subscriptions: NumberOfStudentSubscriptions::new(
                self.student_id.clone(),
            ),
            student_already_subscribed: StudentAlreadySubscribed::new(
                self.course_id.clone(),
                self.student_id.clone(),
            ),
        }
    }

    fn take_events(c: SubscribeStudentToCourseContext) -> (evs: Vec<CandidateEvent>) {
        c.events.take()
    }
}

impl crate::decision::Select for SubscribeStudentToCourse {
    open spec fn selection_of(&self, cv: SubscribeView) -> Result<Seq<SelectorView>, Error> {
        match cv.0.selector_of() {
            Err(e) => Err(e),
            Ok(s0) => match cv.1.selector_of() {
                Err(e) => Err(e),
                Ok(s1) => match cv.2.selector_of() {
                    Err(e) => Err(e),
                    Ok(s2) => match cv.3.selector_of() {
                        Err(e) => Err(e),
                        Ok(s3) => match cv.4.selector_of() {
                            Err(e) => Err(e),
                            Ok(s4) => Ok(seq![s0, s1, s2, s3, s4]),
                        },
                    },
                },
            },
        }
    }

    fn select(&self, c: &SubscribeStudentToCourseContext) -> (res: Result<Selection, Error>) {
        let s0 = match c.course_exists.select() {
            Ok(s) => s,
            Err(e) => {
                return Err(e);
            },
        };
        let s1 = match c.course_capacity.select() {
            Ok(s) => s,
            Err(e) => {
                return Err(e);
            },
        };
        let s2 = match c.number_of_course_subscriptions.select() {
            Ok(s) => s,
            Err(e) => {
                return Err(e);
            },
        };
        let s3 = match c.number_of_student_subscriptions.select() {
            Ok(s) => s,
            Err(e) => {
                return Err(e);
            },
        };
        let s4 = match c.student_already_subscribed.select() {
            Ok(s) => s,
            Err(e) => {
                return Err(e);
            },
        };
        let ghost views = seq![s0@, s1@, s2@, s3@, s4@];
        let mut selectors: Vec<Selector> = Vec::new();
        selectors.push(s0);
        selectors.push(s1);
        selectors.push(s2);
        selectors.push(s3);
        selectors.push(s4);
        match Selection::new(selectors) {
            Ok(sel) => {
                proof {
                    assert(sel@ =~= views);
                }
                Ok(sel)
            },
            Err(_) => {
                proof {
                    assert(false);
                }
                Err(Error::InvalidSelector)
            },
        }
    }
}

impl crate::decision::Update for SubscribeStudentToCourse {
    open spec fn update_of(&self, cv: SubscribeView, e: EventMaskedView) -> Result<
        SubscribeView,
        Error,
    > {
        let b0 = 0 < e.mask.len() && e.mask[0];
        let b1 = 1 < e.mask.len() && e.mask[1];
        let b2 = 2 < e.mask.len() && e.mask[2];
        let b3 = 3 < e.mask.len() && e.mask[3];
        let b4 = 4 < e.mask.len() && e.mask[4];
        match route_step(cv.0, None, b0, e.event) {
            Err(er) => Err(er),
            Ok((p0, c0)) => match route_step(cv.1, c0, b1, e.event) {
                Err(er) => Err(er),
                Ok((p1, c1)) => match route_step(cv.2, c1, b2, e.event) {
                    Err(er) => Err(er),
                    Ok((p2, c2)) => match route_step(cv.3, c2, b3, e.event) {
                        Err(er) => Err(er),
                        Ok((p3, c3)) => match route_step(cv.4, c3, b4, e.event) {
                            Err(er) => Err(er),
                            Ok((p4, _)) => Ok((p0, p1, p2, p3, p4)),
                        },
                    },
                },
            },
        }
    }

    fn update(&self, c: &mut SubscribeStudentToCourseContext, ev: &EventMasked) -> (res: Result<
        (),
        Error,
    >) {
        let mut cached: Option<DispatchEvent<CourseEvent>> = None;
        let b0 = ev.mask_bit(0);
        let b1 = ev.mask_bit(1);
        let b2 = ev.mask_bit(2);
        let b3 = ev.mask_bit(3);
        let b4 = ev.mask_bit(4);
        match route(&mut c.course_exists, &mut cached, b0, ev) {
            Ok(()) => {},
            Err(e) => {
                return Err(e);
            },
        }
        proof {
            assert(cached_view::<CourseExists>(cached) == cached_view::<CourseCapacity>(cached));
        }
        match route(&mut c.course_capacity, &mut cached, b1, ev) {
            Ok(()) => {},
            Err(e) => {
                return Err(e);
            },
        }
        proof {
            assert(cached_view::<CourseCapacity>(cached) == cached_view::<
                NumberOfCourseSubscriptions,
            >(cached));
        }
        match route(&mut c.number_of_course_subscriptions, &mut cached, b2, ev) {
            Ok(()) => {},
            Err(e) => {
                return Err(e);
            },
        }
        proof {
            assert(cached_view::<NumberOfCourseSubscriptions>(cached) == cached_view::<
                NumberOfStudentSubscriptions,
            >(cached));
        }
        match route(&mut c.number_of_student_subscriptions, &mut cached, b3, ev) {
            Ok(()) => {},
            Err(e) => {
                return Err(e);
            },
        }
        proof {
            assert(cached_view::<NumberOfStudentSubscriptions>(cached) == cached_view::<
                StudentAlreadySubscribed,
            >(cached));
        }
        match route(&mut c.student_already_subscribed, &mut cached, b4, ev) {
            Ok(()) => {},
            Err(e) => {
                return Err(e);
            },
        }
        Ok(())
    }
}

/// What subscribing yields on a projected state: the first violated business
/// rule, or success and one `student_subscribed_to_course` event.
impl crate::decision::Act for SubscribeStudentToCourse {
    type Ok = ();

    type Err = CourseError;

    open spec fn err_of(e: Error) -> CourseError {
        CourseError::Engine(e)
    }

    fn stream_err(e: Error) -> (r: CourseError) {
        CourseError::Engine(e)
    }

    open spec fn act_result(&self, cv: SubscribeView) -> Result<(), CourseError> {
        if !cv.0.exists {
            Err(CourseError::DoesNotExist)
        } else if cv.2.count >= cv.1.capacity {
            Err(CourseError::FullyBooked)
        } else if cv.4.subscribed {
            Err(CourseError::AlreadySubscribed)
        } else if cv.3.count >= 5 {
            Err(CourseError::StudentLimitReached)
        } else {
            match student_subscribed_candidate(self.subscribed_view()) {
                Ok(_) => Ok(()),
                Err(e) => Err(CourseError::Engine(e)),
            }
        }
    }

    open spec fn act_appends(&self, cv: SubscribeView) -> Seq<CandidateView> {
        if self.act_result(cv) is Ok {
            seq![student_subscribed_candidate(self.subscribed_view())->Ok_0]
        } else {
            Seq::empty()
        }
    }

    open spec fn act_state(&self, cv: SubscribeView) -> SubscribeView {
        cv
    }

    fn act(&mut self, c: &mut SubscribeStudentToCourseContext) -> (res: Result<(), CourseError>) {
        proof {
            assert(c.events@ =~= c.events@ + Seq::<CandidateView>::empty());
        }
        if !c.course_exists.exists {
            return Err(CourseError::DoesNotExist);
        }
        if c.number_of_course_subscriptions.count >= c.course_capacity.capacity {
            return Err(CourseError::FullyBooked);
        }
        if c.student_already_subscribed.subscribed {
            return Err(CourseError::AlreadySubscribed);
        }
        if c.number_of_student_subscriptions.count >= 5 {
            return Err(CourseError::StudentLimitReached);
        }
        let ev = StudentSubscribedToCourse {
            course_id: self.course_id.clone(),
            student_id: self.student_id.clone(),
        };
        let cand = match ev.to_candidate() {
            Ok(cd) => cd,
            Err(e) => {
                return Err(CourseError::Engine(e));
            },
        };
        let ghost pre = c.events@;
        let ghost cview = cand@;
        c.events.push(cand);
        proof {
            assert(c.events@ =~= pre + seq![cview]);
        }
        Ok(())
    }
}

impl SubscribeStudentToCourse {
    /// The event this decision would append, as a model.
    pub open spec fn subscribed_view(&self) -> StudentSubscribedView {
        StudentSubscribedView { course_id: self.course_id@, student_id: self.student_id@ }
    }
}

impl crate::decision::Decision for SubscribeStudentToCourse {

}


/// Routing isolates the projections: on a successful update each projection's
/// new state depends only on its own mask bit and the once-decoded payload,
/// never on its position among its siblings. Reordering the projection fields
/// would permute mask bits and leave every folded state as it is.
pub proof fn lemma_update_isolates_projections(
    d: SubscribeStudentToCourse,
    cv: SubscribeView,
    e: EventMaskedView,
)
    requires
        crate::decision::Update::update_of(&d, cv, e) is Ok,
    ensures
        ({
            let r = crate::decision::Update::update_of(&d, cv, e)->Ok_0;
            let pos = e.event.position;
            let ts = e.event.timestamp;
            match course_event_of(e.event) {
                Ok(Some(p)) => {
                    &&& r.0 == if 0 < e.mask.len() && e.mask[0] {
                        cv.0.dispatch_of(p, pos, ts)
                    } else {
                        cv.0
                    }
                    &&& r.1 == if 1 < e.mask.len() && e.mask[1] {
                        cv.1.dispatch_of(p, pos, ts)
                    } else {
                        cv.1
                    }
                    &&& r.2 == if 2 < e.mask.len() && e.mask[2] {
                        cv.2.dispatch_of(p, pos, ts)
                    } else {
                        cv.2
                    }
                    &&& r.3 == if 3 < e.mask.len() && e.mask[3] {
                        cv.3.dispatch_of(p, pos, ts)
                    } else {
                        cv.3
                    }
                    &&& r.4 == if 4 < e.mask.len() && e.mask[4] {
                        cv.4.dispatch_of(p, pos, ts)
                    } else {
                        cv.4
                    }
                },
                _ => r == cv,
            }
        }),
{
}


/// Change the capacity of an existing course — unless nothing would change.
#[derive(Debug)]
pub struct ChangeCourseCapacity {
    pub id: String,
    pub new_capacity: u64,
}

/// The projected state [`ChangeCourseCapacity`] reads: one entry per
/// projection, in mask-bit order.
pub type ChangeCapacityView = (CourseExists, CourseCapacity);

/// The context of [`ChangeCourseCapacity`]: the append buffer and two
/// projections, in the order that fixes their mask bits.
#[derive(Debug)]
pub struct ChangeCourseCapacityContext {
    pub events: Events,
    pub course_exists: CourseExists,
    pub course_capacity: CourseCapacity,
}

impl crate::decision::Context for ChangeCourseCapacity {
    type Context = ChangeCourseCapacityContext;

    type ContextView = ChangeCapacityView;

    open spec fn ctx_view(c: ChangeCourseCapacityContext) -> ChangeCapacityView {
        (c.course_exists, c.course_capacity)
    }

    open spec fn buffered(c: ChangeCourseCapacityContext) -> Seq<CandidateView> {
        c.events@
    }

    open spec fn context_init(&self) -> ChangeCapacityView {
        (
            CourseExists { exists: false, id: self.id },
            CourseCapacity { capacity: 0, id: self.id },
        )
    }

    fn context(&self) -> (c: ChangeCourseCapacityContext) {
        ChangeCourseCapacityContext {
            events: Events::new(),
            course_exists: CourseExists::new(self.id.clone()),
            course_capacity: CourseCapacity::new(self.id.clone()),
        }
    }

    fn take_events(c: ChangeCourseCapacityContext) -> (evs: Vec<CandidateEvent>) {
        c.events.take()
    }
}

impl crate::decision::Select for ChangeCourseCapacity {
    open spec fn selection_of(&self, cv: ChangeCapacityView) -> Result<Seq<SelectorView>, Error> {
        match cv.0.selector_of() {
            Err(e) => Err(e),
            Ok(s0) => match cv.1.selector_of() {
                Err(e) => Err(e),
                Ok(s1) => Ok(seq![s0, s1]),
            },
        }
    }

    fn select(&self, c: &ChangeCourseCapacityContext) -> (res: Result<Selection, Error>) {
        let s0 = match c.course_exists.select() {
            Ok(s) => s,
            Err(e) => {
                return Err(e);
            },
        };
        let s1 = match c.course_capacity.select() {
            Ok(s) => s,
            Err(e) => {
                return Err(e);
            },
        };
        let ghost views = seq![s0@, s1@];
        let mut selectors: Vec<Selector> = Vec::new();
        selectors.push(s0);
        selectors.push(s1);
        match Selection::new(selectors) {
            Ok(sel) => {
                proof {
                    assert(sel@ =~= views);
                }
                Ok(sel)
            },
            Err(_) => {
                proof {
                    assert(false);
                }
                Err(Error::InvalidSelector)
            },
        }
    }
}

impl crate::decision::Update for ChangeCourseCapacity {
    open spec fn update_of(&self, cv: ChangeCapacityView, e: EventMaskedView) -> Result<
        ChangeCapacityView,
        Error,
    > {
        let b0 = 0 < e.mask.len() && e.mask[0];
        let b1 = 1 < e.mask.len() && e.mask[1];
        match route_step(cv.0, None, b0, e.event) {
            Err(er) => Err(er),
            Ok((p0, c0)) => match route_step(cv.1, c0, b1, e.event) {
                Err(er) => Err(er),
                Ok((p1, _)) => Ok((p0, p1)),
            },
        }
    }

    fn update(&self, c: &mut ChangeCourseCapacityContext, ev: &EventMasked) -> (res: Result<
        (),
        Error,
    >) {
        let mut cached: Option<DispatchEvent<CourseEvent>> = None;
        let b0 = ev.mask_bit(0);
        let b1 = ev.mask_bit(1);
        match route(&mut c.course_exists, &mut cached, b0, ev) {
            Ok(()) => {},
            Err(e) => {
                return Err(e);
            },
        }
        proof {
            assert(cached_view::<CourseExists>(cached) == cached_view::<CourseCapacity>(cached));
        }
        match route(&mut c.course_capacity, &mut cached, b1, ev) {
            Ok(()) => {},
            Err(e) => {
                return Err(e);
            },
        }
        Ok(())
    }
}

/// What changing the capacity yields on a projected state: a refusal when the
/// course is missing or the capacity would not change, otherwise success and
/// one `course_capacity_changed` event.
impl crate::decision::Act for ChangeCourseCapacity {
    type Ok = ();

    type Err = CourseError;

    open spec fn err_of(e: Error) -> CourseError {
        CourseError::Engine(e)
    }

    fn stream_err(e: Error) -> (r: CourseError) {
        CourseError::Engine(e)
    }

    open spec fn act_result(&self, cv: ChangeCapacityView) -> Result<(), CourseError> {
        if !cv.0.exists {
            Err(CourseError::DoesNotExist)
        } else if cv.1.capacity == self.new_capacity {
            Err(CourseError::CapacityUnchanged)
        } else {
            match course_capacity_changed_candidate(self.changed_view()) {
                Ok(_) => Ok(()),
                Err(e) => Err(CourseError::Engine(e)),
            }
        }
    }

    open spec fn act_appends(&self, cv: ChangeCapacityView) -> Seq<CandidateView> {
        if self.act_result(cv) is Ok {
            seq![course_capacity_changed_candidate(self.changed_view())->Ok_0]
        } else {
            Seq::empty()
        }
    }

    open spec fn act_state(&self, cv: ChangeCapacityView) -> ChangeCapacityView {
        cv
    }

    fn act(&mut self, c: &mut ChangeCourseCapacityContext) -> (res: Result<(), CourseError>) {
        proof {
            assert(c.events@ =~= c.events@ + Seq::<CandidateView>::empty());
        }
        if !c.course_exists.exists {
            return Err(CourseError::DoesNotExist);
        }
        if c.course_capacity.capacity == self.new_capacity {
            return Err(CourseError::CapacityUnchanged);
        }
        let ev = CourseCapacityChanged { id: self.id.clone(), new_capacity: self.new_capacity };
        let cand = match ev.to_candidate() {
            Ok(cd) => cd,
            Err(e) => {
                return Err(CourseError::Engine(e));
            },
        };
        let ghost pre = c.events@;
        let ghost cview = cand@;
        c.events.push(cand);
        proof {
            assert(c.events@ =~= pre + seq![cview]);
        }
        Ok(())
    }
}

impl ChangeCourseCapacity {
    /// The event this decision would append, as a model.
    pub open spec fn changed_view(&self) -> CourseCapacityChangedView {
        CourseCapacityChangedView { id: self.id@, new_capacity: self.new_capacity }
    }
}

impl crate::decision::Decision for ChangeCourseCapacity {

}

} // verus!
