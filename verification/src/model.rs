use vstd::prelude::*;
use crate::path::Path;
use crate::timefmt::Timestamp;

verus! {

// ---------------------------------------------------------------------------
// Appointment
// ---------------------------------------------------------------------------

/// One meeting slot as extracted from a page: the date and clock strings for
/// start and end (still unnormalized), the room, and the instructors.
#[derive(Debug, PartialEq)]
pub struct Appointment {
    pub start_time: (String, String),
    pub end_time: (String, String),
    pub room: String,
    pub instructors: String,
}

#[verifier::ext_equal]
pub struct AppointmentView {
    pub start_time: (Seq<char>, Seq<char>),
    pub end_time: (Seq<char>, Seq<char>),
    pub room: Seq<char>,
    pub instructors: Seq<char>,
}

impl View for Appointment {
    type V = AppointmentView;

    open spec fn view(&self) -> AppointmentView {
        AppointmentView {
            start_time: (self.start_time.0@, self.start_time.1@),
            end_time: (self.end_time.0@, self.end_time.1@),
            room: self.room@,
            instructors: self.instructors@,
        }
    }
}

impl DeepView for Appointment {
    type V = AppointmentView;

    open spec fn deep_view(&self) -> AppointmentView {
        self.view()
    }
}

impl Clone for Appointment {
    fn clone(&self) -> (r: Self)
        ensures
            r@ == self@,
    {
        Appointment {
            start_time: (self.start_time.0.clone(), self.start_time.1.clone()),
            end_time: (self.end_time.0.clone(), self.end_time.1.clone()),
            room: self.room.clone(),
            instructors: self.instructors.clone(),
        }
    }
}

// ---------------------------------------------------------------------------
// Course (raw, pre-canonicalization)
// ---------------------------------------------------------------------------

/// A raw course record: its breadcrumb trail (whose last fragment holds code
/// and title separated by a line break), the instructors, an optional
/// organizational unit, its appointments, and the URLs of the small groups it
/// references.
#[derive(Debug, PartialEq)]
pub struct Course {
    pub path: Path,
    pub instructors: String,
    pub ou: Option<String>,
    pub appointments: Vec<Appointment>,
    pub small_groups: Vec<String>,
}

#[verifier::ext_equal]
pub struct CourseView {
    pub path: Seq<Seq<char>>,
    pub instructors: Seq<char>,
    pub ou: Option<Seq<char>>,
    pub appointments: Seq<AppointmentView>,
    pub small_groups: Seq<Seq<char>>,
}

impl View for Course {
    type V = CourseView;

    open spec fn view(&self) -> CourseView {
        CourseView {
            path: self.path@,
            instructors: self.instructors@,
            ou: self.ou.deep_view(),
            appointments: self.appointments.deep_view(),
            small_groups: self.small_groups.deep_view(),
        }
    }
}

impl DeepView for Course {
    type V = CourseView;

    open spec fn deep_view(&self) -> CourseView {
        self.view()
    }
}

impl Clone for Course {
    fn clone(&self) -> (r: Self)
        ensures
            r@ == self@,
    {
        let appointments = self.appointments.clone();
        let small_groups = self.small_groups.clone();
        proof {
            assert forall|i: int| 0 <= i < appointments@.len() implies appointments@[i]@
                == self.appointments@[i]@ by {
                assert(cloned::<Appointment>(self.appointments@[i], appointments@[i]));
            }
            assert(appointments.deep_view() =~= self.appointments.deep_view());
            assert forall|i: int| 0 <= i < small_groups@.len() implies small_groups@[i]@
                == self.small_groups@[i]@ by {
                assert(cloned::<String>(self.small_groups@[i], small_groups@[i]));
            }
            assert(small_groups.deep_view() =~= self.small_groups.deep_view());
        }
        Course {
            path: self.path.clone(),
            instructors: self.instructors.clone(),
            ou: match &self.ou {
                Some(s) => Some(s.clone()),
                None => None,
            },
            appointments,
            small_groups,
        }
    }
}

// ---------------------------------------------------------------------------
// Small group
// ---------------------------------------------------------------------------

/// A small-group record: its source URL (the snapshot's lookup key), its
/// breadcrumb trail ending in the group name, and its appointments.
#[derive(Debug, PartialEq)]
pub struct SmallGroup {
    pub url: String,
    pub path: Path,
    pub appointments: Vec<Appointment>,
}

#[verifier::ext_equal]
pub struct SmallGroupView {
    pub url: Seq<char>,
    pub path: Seq<Seq<char>>,
    pub appointments: Seq<AppointmentView>,
}

impl View for SmallGroup {
    type V = SmallGroupView;

    open spec fn view(&self) -> SmallGroupView {
        SmallGroupView {
            url: self.url@,
            path: self.path@,
            appointments: self.appointments.deep_view(),
        }
    }
}

impl DeepView for SmallGroup {
    type V = SmallGroupView;

    open spec fn deep_view(&self) -> SmallGroupView {
        self.view()
    }
}

impl Clone for SmallGroup {
    fn clone(&self) -> (r: Self)
        ensures
            r@ == self@,
    {
        let appointments = self.appointments.clone();
        proof {
            assert forall|i: int| 0 <= i < appointments@.len() implies appointments@[i]@
                == self.appointments@[i]@ by {
                assert(cloned::<Appointment>(self.appointments@[i], appointments@[i]));
            }
            assert(appointments.deep_view() =~= self.appointments.deep_view());
        }
        SmallGroup { url: self.url.clone(), path: self.path.clone(), appointments }
    }
}

// ---------------------------------------------------------------------------
// Course-leaf link
// ---------------------------------------------------------------------------

/// A link to a course page discovered on a branch page, with the breadcrumb
/// trail it was reached by.
#[derive(Debug, PartialEq)]
pub struct CoursePage {
    pub url: String,
    pub path: Path,
}

#[verifier::ext_equal]
pub struct CoursePageView {
    pub url: Seq<char>,
    pub path: Seq<Seq<char>>,
}

impl View for CoursePage {
    type V = CoursePageView;

    open spec fn view(&self) -> CoursePageView {
        CoursePageView { url: self.url@, path: self.path@ }
    }
}

impl DeepView for CoursePage {
    type V = CoursePageView;

    open spec fn deep_view(&self) -> CoursePageView {
        self.view()
    }
}

impl Clone for CoursePage {
    fn clone(&self) -> (r: Self)
        ensures
            r@ == self@,
    {
        CoursePage { url: self.url.clone(), path: self.path.clone() }
    }
}

// ---------------------------------------------------------------------------
// Crawl snapshot
// ---------------------------------------------------------------------------

/// The persisted outcome of a crawl: the semester label, the start time, and
/// every course and small-group record that was appended.
pub struct StateSerializable {
    pub semester: String,
    pub start_time: Timestamp,
    pub courses: Vec<Course>,
    pub small_groups: Vec<SmallGroup>,
}

#[verifier::ext_equal]
pub struct SnapshotView {
    pub semester: Seq<char>,
    pub start_time: Timestamp,
    pub courses: Seq<CourseView>,
    pub small_groups: Seq<SmallGroupView>,
}

impl View for StateSerializable {
    type V = SnapshotView;

    open spec fn view(&self) -> SnapshotView {
        SnapshotView {
            semester: self.semester@,
            start_time: self.start_time,
            courses: self.courses.deep_view(),
            small_groups: self.small_groups.deep_view(),
        }
    }
}

} // verus!
