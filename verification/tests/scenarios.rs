//! End-to-end runs of the course decisions against the in-memory log.

use eventric_model::course::{ChangeCourseCapacity, CourseDefined, CourseError, CourseExists,
    CourseRegistered, LookupCourse, NumberOfCourseSubscriptions, NumberOfStudentSubscriptions, RegisterCourse,
    StudentAlreadySubscribed, SubscribeStudentToCourse};
use eventric_model::decision::{Context, Select, Update};
use eventric_model::error::Error;
use eventric_model::projection::Select as ProjectionSelect;
use eventric_model::selector::Selection;
use eventric_model::stream::MemoryStream;

fn register(id: &str, title: &str, capacity: u64) -> RegisterCourse {
    RegisterCourse { id: String::from(id), title: String::from(title), capacity }
}

fn subscribe(course: &str, student: &str) -> SubscribeStudentToCourse {
    SubscribeStudentToCourse {
        course_id: String::from(course),
        student_id: String::from(student),
    }
}

#[test]
fn register_new_course_on_empty_log() {
    // Register a fresh course, then run the identical decision again: the
    // loaded event flips the projection and the re-run declines; the log is
    // unchanged by the second run.
    let mut stream = MemoryStream::new();
    assert_eq!(stream.execute(register("cs-101", "Intro", 30)), Ok(()));
    assert_eq!(stream.len(), 1);
    let stored = stream.get(0);
    assert_eq!(stored.identifier().as_str(), "course_registered");
    assert_eq!(stored.position().value, 0);
    assert_eq!(stored.tags().len(), 1);
    assert_eq!(stored.tags()[0].text(), "course:cs-101");
    assert_eq!(
        stored.data().bytes().as_slice(),
        br#"{"id":"cs-101","title":"Intro","capacity":30}"#
    );
    assert_eq!(
        stream.execute(register("cs-101", "Intro", 30)),
        Err(CourseError::AlreadyExists)
    );
    assert_eq!(stream.len(), 1);
}

#[test]
fn concurrent_registrations_conflict_on_commit() {
    // Two writers observe the empty log. The first commits; the second tries
    // to append under its stale observation and is fenced off; its retry then
    // sees the course and declines.
    let mut stream = MemoryStream::new();

    // The second writer reads first: its selection over the empty log
    // observes nothing, so its fence is "no position observed".
    let loser = register("cs-101", "Intro", 30);
    let context = loser.context();
    let selection = loser.select(&context).unwrap();
    let observed = stream.read_select(&selection);
    assert_eq!(observed.len(), 0);

    // The first writer commits in the meantime.
    assert_eq!(stream.execute(register("cs-101", "Intro", 30)), Ok(()));

    // The second writer's append under its stale fence fails atomically.
    let event = CourseRegistered {
        id: String::from("cs-101"),
        title: String::from("Intro"),
        capacity: 30,
    }
    .to_candidate()
    .unwrap();
    assert_eq!(
        stream.append_select(vec![event], &selection, None),
        Err(Error::ConcurrencyConflict)
    );
    assert_eq!(stream.len(), 1);

    // The retried execution now observes the course and declines.
    assert_eq!(
        stream.execute(register("cs-101", "Intro", 30)),
        Err(CourseError::AlreadyExists)
    );
    assert_eq!(stream.len(), 1);
}

#[test]
fn one_event_dispatches_to_exactly_the_masked_projections() {
    // A single stored subscription of student "b" reaches, for the decision of
    // student "a", the course-subscription counter but not a's own
    // projections: decoded once, routed by mask bits.
    let mut stream = MemoryStream::new();
    assert_eq!(stream.execute(register("cs-101", "Intro", 30)), Ok(()));
    assert_eq!(stream.execute(subscribe("cs-101", "b")), Ok(()));
    assert_eq!(stream.len(), 2);

    let decision = subscribe("cs-101", "a");
    let mut context = decision.context();
    let selection = decision.select(&context).unwrap();
    let events = stream.read_select(&selection);
    assert_eq!(events.len(), 2);

    // The subscription event of student "b": bit 2 (course counter) only.
    assert_eq!(events[1].event().identifier().as_str(), "student_subscribed_to_course");
    assert_eq!(events[1].mask(), &vec![false, false, true, false, false]);

    for ev in &events {
        decision.update(&mut context, ev).unwrap();
    }
    assert!(context.course_exists.exists);
    assert_eq!(context.course_capacity.capacity, 30);
    assert_eq!(context.number_of_course_subscriptions.count, 1);
    assert_eq!(context.number_of_student_subscriptions.count, 0);
    assert!(!context.student_already_subscribed.subscribed);

    // The full execution succeeds: a place is free and "a" is new.
    assert_eq!(stream.execute(subscribe("cs-101", "a")), Ok(()));
    assert_eq!(stream.len(), 3);
}

#[test]
fn capacity_bound_rejects_the_third_subscription() {
    let mut stream = MemoryStream::new();
    assert_eq!(stream.execute(register("cs-101", "Intro", 2)), Ok(()));
    assert_eq!(stream.execute(subscribe("cs-101", "ann")), Ok(()));
    assert_eq!(stream.execute(subscribe("cs-101", "bob")), Ok(()));
    assert_eq!(
        stream.execute(subscribe("cs-101", "cat")),
        Err(CourseError::FullyBooked)
    );
    assert_eq!(stream.len(), 3);
}

#[test]
fn double_subscription_is_rejected() {
    let mut stream = MemoryStream::new();
    assert_eq!(stream.execute(register("cs-101", "Intro", 30)), Ok(()));
    assert_eq!(stream.execute(subscribe("cs-101", "ann")), Ok(()));
    assert_eq!(
        stream.execute(subscribe("cs-101", "ann")),
        Err(CourseError::AlreadySubscribed)
    );
}

#[test]
fn student_course_limit_is_enforced() {
    let mut stream = MemoryStream::new();
    for course in ["c1", "c2", "c3", "c4", "c5", "c6"] {
        assert_eq!(stream.execute(register(course, "T", 10)), Ok(()));
    }
    for course in ["c1", "c2", "c3", "c4", "c5"] {
        assert_eq!(stream.execute(subscribe(course, "ann")), Ok(()));
    }
    assert_eq!(
        stream.execute(subscribe("c6", "ann")),
        Err(CourseError::StudentLimitReached)
    );
}

#[test]
fn subscription_to_unknown_course_is_rejected() {
    let mut stream = MemoryStream::new();
    assert_eq!(
        stream.execute(subscribe("ghost", "ann")),
        Err(CourseError::DoesNotExist)
    );
    assert_eq!(stream.len(), 0);
}

#[test]
fn tag_filter_keeps_foreign_courses_out() {
    // Two `course_defined` events, tagged course:A and course:B. A selection
    // filtered on course A reads exactly the first; the B event never reaches
    // a context.
    let mut stream = MemoryStream::new();
    let a = CourseDefined { id: String::from("A"), capacity: 5 }.to_candidate().unwrap();
    let b = CourseDefined { id: String::from("B"), capacity: 5 }.to_candidate().unwrap();
    let bootstrap = Selection::new(vec![CourseExists::new(String::from("A")).select().unwrap()])
        .unwrap();
    assert_eq!(stream.append_select(vec![a, b], &bootstrap, None), Ok(()));
    assert_eq!(stream.len(), 2);

    let selection = Selection::new(vec![CourseExists::new(String::from("A")).select().unwrap()])
        .unwrap();
    let events = stream.read_select(&selection);
    assert_eq!(events.len(), 1);
    assert_eq!(events[0].event().position().value, 0);
    assert_eq!(events[0].mask(), &vec![true]);

    // The defined course exists for its own id only.
    assert_eq!(stream.execute(LookupCourse { id: String::from("A") }), Ok(true));
    assert_eq!(stream.execute(LookupCourse { id: String::from("C") }), Ok(false));
    assert_eq!(
        stream.execute(register("A", "Taken", 9)),
        Err(CourseError::AlreadyExists)
    );
}

#[test]
fn read_only_decision_appends_nothing() {
    let mut stream = MemoryStream::new();
    assert_eq!(stream.execute(register("cs-101", "Intro", 30)), Ok(()));
    assert_eq!(stream.len(), 1);
    assert_eq!(stream.execute(LookupCourse { id: String::from("cs-101") }), Ok(true));
    assert_eq!(stream.execute(LookupCourse { id: String::from("x") }), Ok(false));
    // No append call reached the log: nothing was persisted.
    assert_eq!(stream.len(), 1);
}

#[test]
fn append_fence_holds_per_selection() {
    // A selection-matching event persisted past the observed position fences
    // the commit; an unrelated selection is not fenced.
    let mut stream = MemoryStream::new();
    assert_eq!(stream.execute(register("cs-101", "Intro", 30)), Ok(()));

    let course_selection = Selection::new(vec![
        CourseExists::new(String::from("cs-101")).select().unwrap(),
    ])
    .unwrap();
    let observed = stream.read_select(&course_selection);
    assert_eq!(observed.len(), 1);
    let fence = observed[0].position();

    // Nothing new matching the selection: the append passes.
    let extra = CourseDefined { id: String::from("cs-101"), capacity: 30 }
        .to_candidate()
        .unwrap();
    assert_eq!(
        stream.append_select(vec![extra], &course_selection, Some(fence)),
        Ok(())
    );
    assert_eq!(stream.len(), 2);

    // The same fence is now stale: a matching event sits past it.
    let late = CourseDefined { id: String::from("cs-101"), capacity: 31 }
        .to_candidate()
        .unwrap();
    assert_eq!(
        stream.append_select(vec![late], &course_selection, Some(fence)),
        Err(Error::ConcurrencyConflict)
    );
    assert_eq!(stream.len(), 2);

    // A selection over another course is not fenced by these events.
    let other_selection = Selection::new(vec![
        CourseExists::new(String::from("other")).select().unwrap(),
    ])
    .unwrap();
    let unrelated = CourseDefined { id: String::from("other"), capacity: 1 }
        .to_candidate()
        .unwrap();
    assert_eq!(
        stream.append_select(vec![unrelated], &other_selection, None),
        Ok(())
    );
    assert_eq!(stream.len(), 3);
}

#[test]
fn rerun_observes_what_the_first_run_wrote() {
    // After a successful run appended its event, the identical decision folds
    // that event before acting, so it observes the post-write state.
    let mut stream = MemoryStream::new();
    assert_eq!(stream.execute(subscribe("cs-101", "ann")), Err(CourseError::DoesNotExist));
    assert_eq!(stream.execute(register("cs-101", "Intro", 2)), Ok(()));
    assert_eq!(stream.execute(subscribe("cs-101", "ann")), Ok(()));
    assert_eq!(
        stream.execute(subscribe("cs-101", "ann")),
        Err(CourseError::AlreadySubscribed)
    );
    let counting = NumberOfCourseSubscriptions::new(String::from("cs-101"));
    let selection = Selection::new(vec![counting.select().unwrap()]).unwrap();
    assert_eq!(stream.read_select(&selection).len(), 1);
    let per_student = NumberOfStudentSubscriptions::new(String::from("ann"));
    let selection = Selection::new(vec![per_student.select().unwrap()]).unwrap();
    assert_eq!(stream.read_select(&selection).len(), 1);
    let already = StudentAlreadySubscribed::new(String::from("cs-101"), String::from("ann"));
    let selection = Selection::new(vec![already.select().unwrap()]).unwrap();
    assert_eq!(stream.read_select(&selection).len(), 1);
}

#[test]
fn course_events_round_trip_through_their_records() {
    let ev = CourseRegistered {
        id: String::from("cs-101"),
        title: String::from("Intro"),
        capacity: 30,
    };
    let back = CourseRegistered::from_record(&ev.to_record()).unwrap();
    assert_eq!(back.id, "cs-101");
    assert_eq!(back.title, "Intro");
    assert_eq!(back.capacity, 30);

    let ev = CourseDefined { id: String::from("A"), capacity: 5 };
    let back = CourseDefined::from_record(&ev.to_record()).unwrap();
    assert_eq!(back.id, "A");
    assert_eq!(back.capacity, 5);
}

#[test]
fn unencodable_decision_input_surfaces_the_engine_error() {
    // A title with a quote cannot be serialized; an empty id cannot be tagged.
    let mut stream = MemoryStream::new();
    assert_eq!(
        stream.execute(register("cs-101", "say \"hi\"", 1)),
        Err(CourseError::Engine(Error::Serialization))
    );
    assert_eq!(
        stream.execute(register("", "Intro", 1)),
        Err(CourseError::Engine(Error::InvalidTag))
    );
    assert_eq!(stream.len(), 0);
}

#[test]
fn capacity_changes_fold_into_later_decisions() {
    let mut stream = MemoryStream::new();
    assert_eq!(
        stream.execute(ChangeCourseCapacity { id: String::from("cs-101"), new_capacity: 5 }),
        Err(CourseError::DoesNotExist)
    );
    assert_eq!(stream.execute(register("cs-101", "Intro", 1)), Ok(()));
    assert_eq!(stream.execute(subscribe("cs-101", "ann")), Ok(()));
    assert_eq!(
        stream.execute(subscribe("cs-101", "bob")),
        Err(CourseError::FullyBooked)
    );
    assert_eq!(
        stream.execute(ChangeCourseCapacity { id: String::from("cs-101"), new_capacity: 1 }),
        Err(CourseError::CapacityUnchanged)
    );
    assert_eq!(
        stream.execute(ChangeCourseCapacity { id: String::from("cs-101"), new_capacity: 2 }),
        Ok(())
    );
    let stored = stream.get(stream.len() - 1);
    assert_eq!(stored.identifier().as_str(), "course_capacity_changed");
    assert_eq!(
        stored.data().bytes().as_slice(),
        br#"{"id":"cs-101","new_capacity":2}"#
    );
    // The raised capacity admits the next student.
    assert_eq!(stream.execute(subscribe("cs-101", "bob")), Ok(()));
    assert_eq!(
        stream.execute(subscribe("cs-101", "cat")),
        Err(CourseError::FullyBooked)
    );
}
