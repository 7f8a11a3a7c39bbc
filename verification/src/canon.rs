use vstd::prelude::*;
use crate::digest::{fingerprint_suffix, suffix_of_fingerprint};
use crate::model::{Appointment, AppointmentView, Course, CourseView, SmallGroup, SmallGroupView,
    SnapshotView, StateSerializable};
use crate::order::{
    cmp_chain, cmp_lex, cmp_opt, cmp_str, cmp_str_exec, lemma_cmp_lex_proper, lemma_cmp_opt_proper,
    lemma_cmp_str_antisym, lemma_cmp_str_eq, lemma_cmp_str_proper, lemma_cmp_str_range,
    lemma_cmp_str_trans, proper_cmp,
};
use crate::strutil::{dec_digits, lines_seq, lines_of, strip_prefix_once, str_eq, u64_dec};
use crate::timefmt::{
    check_date, convert_time, converted_time, format_timestamp, formatted_timestamp,
    valid_date_seq,
};

verus! {

// ---------------------------------------------------------------------------
// The canonical (published) record types
// ---------------------------------------------------------------------------

/// A published appointment: normalized start and end date-times, the room,
/// the instructors.
#[derive(Debug, PartialEq)]
pub struct CanonicalAppointment {
    pub start_time: String,
    pub end_time: String,
    pub room: String,
    pub instructors: String,
}

#[verifier::ext_equal]
pub struct CanonApptView {
    pub start_time: Seq<char>,
    pub end_time: Seq<char>,
    pub room: Seq<char>,
    pub instructors: Seq<char>,
}

impl View for CanonicalAppointment {
    type V = CanonApptView;

    open spec fn view(&self) -> CanonApptView {
        CanonApptView {
            start_time: self.start_time@,
            end_time: self.end_time@,
            room: self.room@,
            instructors: self.instructors@,
        }
    }
}

impl DeepView for CanonicalAppointment {
    type V = CanonApptView;

    open spec fn deep_view(&self) -> CanonApptView {
        self.view()
    }
}

impl Clone for CanonicalAppointment {
    fn clone(&self) -> (r: Self)
        ensures
            r@ == self@,
    {
        CanonicalAppointment {
            start_time: self.start_time.clone(),
            end_time: self.end_time.clone(),
            room: self.room.clone(),
            instructors: self.instructors.clone(),
        }
    }
}

/// A published small group: its name (the UI label prefix stripped) and its
/// normalized appointments.
#[derive(Debug, PartialEq)]
pub struct CanonicalSmallGroup {
    pub name: String,
    pub appointments: Vec<CanonicalAppointment>,
}

#[verifier::ext_equal]
pub struct CanonGroupView {
    pub name: Seq<char>,
    pub appointments: Seq<CanonApptView>,
}

impl View for CanonicalSmallGroup {
    type V = CanonGroupView;

    open spec fn view(&self) -> CanonGroupView {
        CanonGroupView { name: self.name@, appointments: self.appointments.deep_view() }
    }
}

impl DeepView for CanonicalSmallGroup {
    type V = CanonGroupView;

    open spec fn deep_view(&self) -> CanonGroupView {
        self.view()
    }
}

impl Clone for CanonicalSmallGroup {
    fn clone(&self) -> (r: Self)
        ensures
            r@ == self@,
    {
        let appointments = self.appointments.clone();
        proof {
            assert forall|i: int| 0 <= i < appointments@.len() implies appointments@[i]@
                == self.appointments@[i]@ by {
                assert(cloned::<CanonicalAppointment>(self.appointments@[i], appointments@[i]));
            }
            assert(appointments.deep_view() =~= self.appointments.deep_view());
        }
        CanonicalSmallGroup { name: self.name.clone(), appointments }
    }
}

/// A published course: its stable id, name, the defaulted description, the
/// organizational unit, the instructors, its resolved small groups, and its
/// normalized appointments.
#[derive(Debug, PartialEq)]
pub struct CanonicalCourse {
    pub id: String,
    pub name: String,
    pub description: Option<String>,
    pub ou: Option<String>,
    pub instructors: Option<String>,
    pub small_groups: Vec<CanonicalSmallGroup>,
    pub appointments: Vec<CanonicalAppointment>,
}

#[verifier::ext_equal]
pub struct CanonCourseView {
    pub id: Seq<char>,
    pub name: Seq<char>,
    pub description: Option<Seq<char>>,
    pub ou: Option<Seq<char>>,
    pub instructors: Option<Seq<char>>,
    pub small_groups: Seq<CanonGroupView>,
    pub appointments: Seq<CanonApptView>,
}

impl View for CanonicalCourse {
    type V = CanonCourseView;

    open spec fn view(&self) -> CanonCourseView {
        CanonCourseView {
            id: self.id@,
            name: self.name@,
            description: self.description.deep_view(),
            ou: self.ou.deep_view(),
            instructors: self.instructors.deep_view(),
            small_groups: self.small_groups.deep_view(),
            appointments: self.appointments.deep_view(),
        }
    }
}

impl DeepView for CanonicalCourse {
    type V = CanonCourseView;

    open spec fn deep_view(&self) -> CanonCourseView {
        self.view()
    }
}

impl Clone for CanonicalCourse {
    fn clone(&self) -> (r: Self)
        ensures
            r@ == self@,
    {
        let small_groups = self.small_groups.clone();
        let appointments = self.appointments.clone();
        proof {
            assert forall|i: int| 0 <= i < small_groups@.len() implies small_groups@[i]@
                == self.small_groups@[i]@ by {
                assert(cloned::<CanonicalSmallGroup>(self.small_groups@[i], small_groups@[i]));
            }
            assert(small_groups.deep_view() =~= self.small_groups.deep_view());
            assert forall|i: int| 0 <= i < appointments@.len() implies appointments@[i]@
                == self.appointments@[i]@ by {
                assert(cloned::<CanonicalAppointment>(self.appointments@[i], appointments@[i]));
            }
            assert(appointments.deep_view() =~= self.appointments.deep_view());
        }
        CanonicalCourse {
            id: self.id.clone(),
            name: self.name.clone(),
            description: match &self.description {
                Some(s) => Some(s.clone()),
                None => None,
            },
            ou: match &self.ou {
                Some(s) => Some(s.clone()),
                None => None,
            },
            instructors: match &self.instructors {
                Some(s) => Some(s.clone()),
                None => None,
            },
            small_groups,
            appointments,
        }
    }
}

/// The terminal artifact: the semester's name, the crawl's start time
/// rendered as a fixed-width local timestamp, and the canonical courses.
#[derive(Debug, PartialEq)]
pub struct SemesterDocument {
    pub name: String,
    pub created: String,
    pub courses: Vec<CanonicalCourse>,
}

#[verifier::ext_equal]
pub struct SemesterDocView {
    pub name: Seq<char>,
    pub created: Seq<char>,
    pub courses: Seq<CanonCourseView>,
}

impl View for SemesterDocument {
    type V = SemesterDocView;

    open spec fn view(&self) -> SemesterDocView {
        SemesterDocView {
            name: self.name@,
            created: self.created@,
            courses: self.courses.deep_view(),
        }
    }
}

/// Why canonicalization refused a snapshot. Every condition is fatal: no
/// partial document is produced.
#[derive(Debug, Clone, Copy, PartialEq, Eq, Structural)]
pub enum CanonError {
    /// Two small groups share a source URL: references are ambiguous.
    DuplicateSmallGroupUrl,
    /// A course references a small-group URL absent from the snapshot.
    UnresolvedSmallGroupUrl,
    /// A breadcrumb is empty, or a course's last fragment has fewer than two
    /// lines.
    MalformedBreadcrumb,
    /// An appointment's date string cannot be normalized.
    MalformedAppointment,
}

// ---------------------------------------------------------------------------
// Converting appointments and small groups
// ---------------------------------------------------------------------------

/// Whether an appointment's two date strings can be normalized.
pub open spec fn appointment_convertible(a: AppointmentView) -> bool {
    valid_date_seq(a.start_time.0) && valid_date_seq(a.end_time.0)
}

/// The published form of an appointment: both date-time pairs normalized.
pub open spec fn converted_appointment(a: AppointmentView) -> CanonApptView
    recommends
        appointment_convertible(a),
{
    CanonApptView {
        start_time: converted_time(a.start_time.0, a.start_time.1),
        end_time: converted_time(a.end_time.0, a.end_time.1),
        room: a.room,
        instructors: a.instructors,
    }
}

/// Normalizes one appointment's date-times.
pub fn convert_appointment(appointment: &Appointment) -> (r: CanonicalAppointment)
    requires
        appointment_convertible(appointment@),
    ensures
        r@ == converted_appointment(appointment@),
{
    CanonicalAppointment {
        start_time: convert_time(
            appointment.start_time.0.as_str(),
            appointment.start_time.1.as_str(),
        ),
        end_time: convert_time(appointment.end_time.0.as_str(), appointment.end_time.1.as_str()),
        room: appointment.room.clone(),
        instructors: appointment.instructors.clone(),
    }
}

pub open spec fn appointments_convertible(appts: Seq<AppointmentView>) -> bool {
    forall|i: int| 0 <= i < appts.len() ==> appointment_convertible(#[trigger] appts[i])
}

/// Whether every appointment of the sequence can be normalized.
pub fn check_appointments(appts: &Vec<Appointment>) -> (r: bool)
    ensures
        r == appointments_convertible(appts.deep_view()),
{
    let mut i: usize = 0;
    while i < appts.len()
        invariant
            i <= appts.len(),
            forall|j: int|
                0 <= j < i ==> appointment_convertible(#[trigger] appts.deep_view()[j]),
        decreases appts.len() - i,
    {
        let a = &appts[i];
        if !(check_date(a.start_time.0.as_str()) && check_date(a.end_time.0.as_str())) {
            proof {
                assert(!appointment_convertible(appts.deep_view()[i as int]));
            }
            return false;
        }
        i += 1;
    }
    true
}

#[verifier::loop_isolation(false)]
fn convert_appointments(appts: &Vec<Appointment>) -> (r: Vec<CanonicalAppointment>)
    requires
        appointments_convertible(appts.deep_view()),
    ensures
        r.deep_view() == appts.deep_view().map_values(
            |a: AppointmentView| converted_appointment(a),
        ),
{
    let ghost f = |a: AppointmentView| converted_appointment(a);
    let mut out: Vec<CanonicalAppointment> = Vec::new();
    let mut i: usize = 0;
    while i < appts.len()
        invariant
            i <= appts.len(),
            out.deep_view() =~= appts.deep_view().take(i as int).map_values(f),
        decreases appts.len() - i,
    {
        let ghost prev = out.deep_view();
        proof {
            assert(appts.deep_view()[i as int] == appts@[i as int]@);
            assert(appointment_convertible(appts.deep_view()[i as int]));
        }
        out.push(convert_appointment(&appts[i]));
        proof {
            let dv = appts.deep_view();
            assert(out.deep_view() =~= prev.push(f(dv[i as int])));
            assert(out.deep_view() =~= dv.take(i + 1).map_values(f));
        }
        i += 1;
    }
    proof {
        let dv = appts.deep_view();
        assert(dv.take(dv.len() as int) =~= dv);
    }
    out
}

/// Whether a small group can be published: its trail is non-empty (its last
/// fragment is the group name) and its appointments normalize.
pub open spec fn group_convertible(g: SmallGroupView) -> bool {
    g.path.len() > 0 && appointments_convertible(g.appointments)
}

/// The group name: the trail's last fragment with one leading UI label
/// `"Kleingruppe:\u{a0}"` removed, if it is there.
pub open spec fn group_name(path: Seq<Seq<char>>) -> Seq<char>
    recommends
        path.len() > 0,
{
    let last = path.last();
    if "Kleingruppe:\u{a0}"@.is_prefix_of(last) {
        last.skip("Kleingruppe:\u{a0}"@.len() as int)
    } else {
        last
    }
}

/// The published form of a small group.
pub open spec fn converted_group(g: SmallGroupView) -> CanonGroupView
    recommends
        group_convertible(g),
{
    CanonGroupView {
        name: group_name(g.path),
        appointments: g.appointments.map_values(|a: AppointmentView| converted_appointment(a)),
    }
}

/// Publishes one small group: resolves its name from the trail and
/// normalizes its appointments.
pub fn convert_small_group(sg: &SmallGroup) -> (r: CanonicalSmallGroup)
    requires
        group_convertible(sg@),
    ensures
        r@ == converted_group(sg@),
{
    let n = sg.path.len();
    let last = &sg.path.fragments[n - 1];
    proof {
        assert(last@ == sg@.path.last());
    }
    let name = strip_prefix_once(last.as_str(), "Kleingruppe:\u{a0}");
    let appointments = convert_appointments(&sg.appointments);
    CanonicalSmallGroup { name, appointments }
}

// ---------------------------------------------------------------------------
// The full-record order used to rank colliding courses
// ---------------------------------------------------------------------------

/// Published appointments compare field by field: start, end, room,
/// instructors.
pub open spec fn cmp_appt(a: CanonApptView, b: CanonApptView) -> int {
    cmp_chain(
        cmp_str(a.start_time, b.start_time),
        cmp_chain(
            cmp_str(a.end_time, b.end_time),
            cmp_chain(cmp_str(a.room, b.room), cmp_str(a.instructors, b.instructors)),
        ),
    )
}

/// Published small groups compare by name, then by their appointment lists.
pub open spec fn cmp_group(a: CanonGroupView, b: CanonGroupView) -> int {
    cmp_chain(
        cmp_str(a.name, b.name),
        cmp_lex(a.appointments, b.appointments, |x: CanonApptView, y: CanonApptView| cmp_appt(x, y)),
    )
}

/// Published courses compare over every field, in declaration order: id,
/// name, description, organizational unit, instructors, small groups,
/// appointments. This is the deterministic tie-break for colliding ids.
pub open spec fn cmp_course(a: CanonCourseView, b: CanonCourseView) -> int {
    cmp_chain(
        cmp_str(a.id, b.id),
        cmp_chain(
            cmp_str(a.name, b.name),
            cmp_chain(
                cmp_opt(a.description, b.description, |x: Seq<char>, y: Seq<char>| cmp_str(x, y)),
                cmp_chain(
                    cmp_opt(a.ou, b.ou, |x: Seq<char>, y: Seq<char>| cmp_str(x, y)),
                    cmp_chain(
                        cmp_opt(
                            a.instructors,
                            b.instructors,
                            |x: Seq<char>, y: Seq<char>| cmp_str(x, y),
                        ),
                        cmp_chain(
                            cmp_lex(
                                a.small_groups,
                                b.small_groups,
                                |x: CanonGroupView, y: CanonGroupView| cmp_group(x, y),
                            ),
                            cmp_lex(
                                a.appointments,
                                b.appointments,
                                |x: CanonApptView, y: CanonApptView| cmp_appt(x, y),
                            ),
                        ),
                    ),
                ),
            ),
        ),
    )
}

/// The order colliding courses are ranked by.
pub open spec fn course_le(a: CanonCourseView, b: CanonCourseView) -> bool {
    cmp_course(a, b) <= 0
}

pub proof fn lemma_cmp_appt_proper()
    ensures
        proper_cmp(|a: CanonApptView, b: CanonApptView| cmp_appt(a, b)),
{
    lemma_cmp_str_proper();
    let s = |x: Seq<char>, y: Seq<char>| cmp_str(x, y);
    let f = |a: CanonApptView, b: CanonApptView| cmp_appt(a, b);
    assert forall|x: CanonApptView, y: CanonApptView| -1 <= #[trigger] f(x, y) <= 1 by {
        lemma_cmp_str_range(x.start_time, y.start_time);
        lemma_cmp_str_range(x.end_time, y.end_time);
        lemma_cmp_str_range(x.room, y.room);
        lemma_cmp_str_range(x.instructors, y.instructors);
    }
    assert forall|x: CanonApptView, y: CanonApptView| (#[trigger] f(x, y) == 0) <==> x == y by {
        assert(s(x.start_time, y.start_time) == cmp_str(x.start_time, y.start_time));
        assert(s(x.end_time, y.end_time) == cmp_str(x.end_time, y.end_time));
        assert(s(x.room, y.room) == cmp_str(x.room, y.room));
        assert(s(x.instructors, y.instructors) == cmp_str(x.instructors, y.instructors));
        if f(x, y) == 0 {
            assert(x =~= y);
        }
    }
    assert forall|x: CanonApptView, y: CanonApptView| #[trigger] f(x, y) == -f(y, x) by {
        assert(s(x.start_time, y.start_time) == -s(y.start_time, x.start_time));
        assert(s(x.end_time, y.end_time) == -s(y.end_time, x.end_time));
        assert(s(x.room, y.room) == -s(y.room, x.room));
        assert(s(x.instructors, y.instructors) == -s(y.instructors, x.instructors));
    }
    assert forall|x: CanonApptView, y: CanonApptView, z: CanonApptView|
        #![trigger f(x, y), f(y, z)]
        f(x, y) <= 0 && f(y, z) <= 0 implies f(x, z) <= 0 && (f(x, z) == 0 ==> f(x, y) == 0 && f(
        y,
        z,
    ) == 0) by {
        lemma_cmp_str_trans_chain(x.start_time, y.start_time, z.start_time);
        lemma_cmp_str_trans_chain(x.end_time, y.end_time, z.end_time);
        lemma_cmp_str_trans_chain(x.room, y.room, z.room);
        lemma_cmp_str_trans_chain(x.instructors, y.instructors, z.instructors);
    }
}

/// The string-comparison facts needed to push a three-way chain through one
/// field: ranges, antisymmetry both ways, and transitivity in every
/// direction that can arise.
proof fn lemma_cmp_str_trans_chain(a: Seq<char>, b: Seq<char>, c: Seq<char>)
    ensures
        -1 <= cmp_str(a, b) <= 1,
        -1 <= cmp_str(b, c) <= 1,
        -1 <= cmp_str(a, c) <= 1,
        cmp_str(a, b) == -cmp_str(b, a),
        cmp_str(b, c) == -cmp_str(c, b),
        cmp_str(a, c) == -cmp_str(c, a),
        (cmp_str(a, b) == 0) <==> a == b,
        (cmp_str(b, c) == 0) <==> b == c,
        (cmp_str(a, c) == 0) <==> a == c,
        cmp_str(a, b) <= 0 && cmp_str(b, c) <= 0 ==> cmp_str(a, c) <= 0 && (cmp_str(a, c) == 0
            ==> cmp_str(a, b) == 0 && cmp_str(b, c) == 0),
{
    lemma_cmp_str_range(a, b);
    lemma_cmp_str_range(b, c);
    lemma_cmp_str_range(a, c);
    lemma_cmp_str_antisym(a, b);
    lemma_cmp_str_antisym(b, c);
    lemma_cmp_str_antisym(a, c);
    lemma_cmp_str_eq(a, b);
    lemma_cmp_str_eq(b, c);
    lemma_cmp_str_eq(a, c);
    if cmp_str(a, b) <= 0 && cmp_str(b, c) <= 0 {
        lemma_cmp_str_trans(a, b, c);
    }
}

pub proof fn lemma_cmp_group_proper()
    ensures
        proper_cmp(|a: CanonGroupView, b: CanonGroupView| cmp_group(a, b)),
{
    lemma_cmp_str_proper();
    lemma_cmp_appt_proper();
    lemma_cmp_lex_proper(|x: CanonApptView, y: CanonApptView| cmp_appt(x, y));
    let la = |x: Seq<CanonApptView>, y: Seq<CanonApptView>|
        cmp_lex(x, y, |p: CanonApptView, q: CanonApptView| cmp_appt(p, q));
    assert(proper_cmp(la));
    let f = |a: CanonGroupView, b: CanonGroupView| cmp_group(a, b);
    assert forall|x: CanonGroupView, y: CanonGroupView| -1 <= #[trigger] f(x, y) <= 1 by {
        lemma_cmp_str_range(x.name, y.name);
        assert(-1 <= la(x.appointments, y.appointments) <= 1);
    }
    assert forall|x: CanonGroupView, y: CanonGroupView| (#[trigger] f(x, y) == 0) <==> x == y by {
        lemma_cmp_str_eq(x.name, y.name);
        assert(la(x.appointments, y.appointments) == cmp_lex(
            x.appointments,
            y.appointments,
            |p: CanonApptView, q: CanonApptView| cmp_appt(p, q),
        ));
        if f(x, y) == 0 {
            assert(x =~= y);
        }
    }
    assert forall|x: CanonGroupView, y: CanonGroupView| #[trigger] f(x, y) == -f(y, x) by {
        lemma_cmp_str_antisym(x.name, y.name);
        assert(la(x.appointments, y.appointments) == -la(y.appointments, x.appointments));
    }
    assert forall|x: CanonGroupView, y: CanonGroupView, z: CanonGroupView|
        #![trigger f(x, y), f(y, z)]
        f(x, y) <= 0 && f(y, z) <= 0 implies f(x, z) <= 0 && (f(x, z) == 0 ==> f(x, y) == 0 && f(
        y,
        z,
    ) == 0) by {
        lemma_cmp_str_trans_chain(x.name, y.name, z.name);
        assert(la(x.appointments, y.appointments) <= 0 && la(y.appointments, z.appointments) <= 0
            ==> la(x.appointments, z.appointments) <= 0 && (la(x.appointments, z.appointments) == 0
            ==> la(x.appointments, y.appointments) == 0 && la(y.appointments, z.appointments)
            == 0));
        assert(-1 <= la(x.appointments, y.appointments) <= 1);
        assert(-1 <= la(y.appointments, z.appointments) <= 1);
        assert(la(x.appointments, y.appointments) == -la(y.appointments, x.appointments));
    }
}

pub proof fn lemma_cmp_course_proper()
    ensures
        proper_cmp(|a: CanonCourseView, b: CanonCourseView| cmp_course(a, b)),
{
    lemma_cmp_str_proper();
    lemma_cmp_appt_proper();
    lemma_cmp_group_proper();
    lemma_cmp_opt_proper(|x: Seq<char>, y: Seq<char>| cmp_str(x, y));
    lemma_cmp_lex_proper(|x: CanonApptView, y: CanonApptView| cmp_appt(x, y));
    lemma_cmp_lex_proper(|x: CanonGroupView, y: CanonGroupView| cmp_group(x, y));
    let so = |x: Option<Seq<char>>, y: Option<Seq<char>>|
        cmp_opt(x, y, |p: Seq<char>, q: Seq<char>| cmp_str(p, q));
    let la = |x: Seq<CanonApptView>, y: Seq<CanonApptView>|
        cmp_lex(x, y, |p: CanonApptView, q: CanonApptView| cmp_appt(p, q));
    let lg = |x: Seq<CanonGroupView>, y: Seq<CanonGroupView>|
        cmp_lex(x, y, |p: CanonGroupView, q: CanonGroupView| cmp_group(p, q));
    assert(proper_cmp(so));
    assert(proper_cmp(la));
    assert(proper_cmp(lg));
    let f = |a: CanonCourseView, b: CanonCourseView| cmp_course(a, b);
    assert forall|x: CanonCourseView, y: CanonCourseView| -1 <= #[trigger] f(x, y) <= 1 by {
        lemma_cmp_str_range(x.id, y.id);
        lemma_cmp_str_range(x.name, y.name);
        assert(-1 <= so(x.description, y.description) <= 1);
        assert(-1 <= so(x.ou, y.ou) <= 1);
        assert(-1 <= so(x.instructors, y.instructors) <= 1);
        assert(-1 <= lg(x.small_groups, y.small_groups) <= 1);
        assert(-1 <= la(x.appointments, y.appointments) <= 1);
    }
    assert forall|x: CanonCourseView, y: CanonCourseView| (#[trigger] f(x, y) == 0) <==> x == y by {
        lemma_cmp_str_eq(x.id, y.id);
        lemma_cmp_str_eq(x.name, y.name);
        assert(so(x.description, y.description) == 0 <==> x.description == y.description);
        assert(so(x.ou, y.ou) == 0 <==> x.ou == y.ou);
        assert(so(x.instructors, y.instructors) == 0 <==> x.instructors == y.instructors);
        assert(lg(x.small_groups, y.small_groups) == 0 <==> x.small_groups == y.small_groups);
        assert(la(x.appointments, y.appointments) == 0 <==> x.appointments == y.appointments);
        if f(x, y) == 0 {
            assert(x =~= y);
        }
    }
    assert forall|x: CanonCourseView, y: CanonCourseView| #[trigger] f(x, y) == -f(y, x) by {
        lemma_cmp_str_antisym(x.id, y.id);
        lemma_cmp_str_antisym(x.name, y.name);
        assert(so(x.description, y.description) == -so(y.description, x.description));
        assert(so(x.ou, y.ou) == -so(y.ou, x.ou));
        assert(so(x.instructors, y.instructors) == -so(y.instructors, x.instructors));
        assert(lg(x.small_groups, y.small_groups) == -lg(y.small_groups, x.small_groups));
        assert(la(x.appointments, y.appointments) == -la(y.appointments, x.appointments));
    }
    assert forall|x: CanonCourseView, y: CanonCourseView, z: CanonCourseView|
        #![trigger f(x, y), f(y, z)]
        f(x, y) <= 0 && f(y, z) <= 0 implies f(x, z) <= 0 && (f(x, z) == 0 ==> f(x, y) == 0 && f(
        y,
        z,
    ) == 0) by {
        lemma_cmp_str_trans_chain(x.id, y.id, z.id);
        lemma_cmp_str_trans_chain(x.name, y.name, z.name);
        lemma_opt_trans_chain(so, x.description, y.description, z.description);
        lemma_opt_trans_chain(so, x.ou, y.ou, z.ou);
        lemma_opt_trans_chain(so, x.instructors, y.instructors, z.instructors);
        lemma_seq_trans_chain(lg, x.small_groups, y.small_groups, z.small_groups);
        lemma_seq_trans_chain(la, x.appointments, y.appointments, z.appointments);
    }
}

/// Instantiates a proper comparison's laws on one option-field triple.
proof fn lemma_opt_trans_chain(
    c: spec_fn(Option<Seq<char>>, Option<Seq<char>>) -> int,
    a: Option<Seq<char>>,
    b: Option<Seq<char>>,
    d: Option<Seq<char>>,
)
    requires
        proper_cmp(c),
    ensures
        -1 <= c(a, b) <= 1,
        -1 <= c(b, d) <= 1,
        -1 <= c(a, d) <= 1,
        c(a, b) == -c(b, a),
        (c(a, b) == 0) <==> a == b,
        (c(b, d) == 0) <==> b == d,
        (c(a, d) == 0) <==> a == d,
        c(a, b) <= 0 && c(b, d) <= 0 ==> c(a, d) <= 0 && (c(a, d) == 0 ==> c(a, b) == 0 && c(b, d)
            == 0),
{
}

/// Instantiates a proper comparison's laws on one sequence-field triple.
proof fn lemma_seq_trans_chain<T>(
    c: spec_fn(Seq<T>, Seq<T>) -> int,
    a: Seq<T>,
    b: Seq<T>,
    d: Seq<T>,
)
    requires
        proper_cmp(c),
    ensures
        -1 <= c(a, b) <= 1,
        -1 <= c(b, d) <= 1,
        -1 <= c(a, d) <= 1,
        c(a, b) == -c(b, a),
        (c(a, b) == 0) <==> a == b,
        (c(b, d) == 0) <==> b == d,
        (c(a, d) == 0) <==> a == d,
        c(a, b) <= 0 && c(b, d) <= 0 ==> c(a, d) <= 0 && (c(a, d) == 0 ==> c(a, b) == 0 && c(b, d)
            == 0),
{
}

/// The ranking order is a total ordering: reflexive, transitive,
/// antisymmetric, and any two courses are comparable.
pub proof fn lemma_course_le_total()
    ensures
        vstd::relations::total_ordering(|a: CanonCourseView, b: CanonCourseView| course_le(a, b)),
{
    lemma_cmp_course_proper();
    let c = |a: CanonCourseView, b: CanonCourseView| cmp_course(a, b);
    let le = |a: CanonCourseView, b: CanonCourseView| course_le(a, b);
    assert forall|x: CanonCourseView| #[trigger] le(x, x) by {
        assert(c(x, x) == 0);
    }
    assert forall|x: CanonCourseView, y: CanonCourseView, z: CanonCourseView|
        #![trigger le(x, y), le(y, z)]
        le(x, y) && le(y, z) implies le(x, z) by {
        assert(c(x, y) <= 0 && c(y, z) <= 0);
        assert(c(x, z) <= 0);
    }
    assert forall|x: CanonCourseView, y: CanonCourseView|
        #![trigger le(x, y), le(y, x)]
        le(x, y) && le(y, x) implies x == y by {
        assert(c(x, y) == -c(y, x));
        assert(c(x, y) == 0);
    }
    assert forall|x: CanonCourseView, y: CanonCourseView|
        #![trigger le(x, y), le(y, x)]
        le(x, y) || le(y, x) by {
        assert(c(x, y) == -c(y, x));
        assert(-1 <= c(x, y) <= 1);
    }
    assert(vstd::relations::reflexive(le));
    assert(vstd::relations::transitive(le));
    assert(vstd::relations::antisymmetric(le));
    assert(vstd::relations::strongly_connected(le));
}


// ---------------------------------------------------------------------------
// Executable comparators
// ---------------------------------------------------------------------------

fn cmp_opt_str_exec(a: &Option<String>, b: &Option<String>) -> (r: i32)
    ensures
        r as int == cmp_opt(
            a.deep_view(),
            b.deep_view(),
            |x: Seq<char>, y: Seq<char>| cmp_str(x, y),
        ),
{
    match (a, b) {
        (Option::None, Option::None) => 0,
        (Option::None, Option::Some(_)) => -1,
        (Option::Some(_), Option::None) => 1,
        (Option::Some(x), Option::Some(y)) => cmp_str_exec(x.as_str(), y.as_str()),
    }
}

fn cmp_appt_exec(a: &CanonicalAppointment, b: &CanonicalAppointment) -> (r: i32)
    ensures
        r as int == cmp_appt(a@, b@),
{
    let c = cmp_str_exec(a.start_time.as_str(), b.start_time.as_str());
    if c != 0 {
        return c;
    }
    let c = cmp_str_exec(a.end_time.as_str(), b.end_time.as_str());
    if c != 0 {
        return c;
    }
    let c = cmp_str_exec(a.room.as_str(), b.room.as_str());
    if c != 0 {
        return c;
    }
    cmp_str_exec(a.instructors.as_str(), b.instructors.as_str())
}

#[verifier::loop_isolation(false)]
fn cmp_appt_list_exec(a: &Vec<CanonicalAppointment>, b: &Vec<CanonicalAppointment>) -> (r: i32)
    ensures
        r as int == cmp_lex(
            a.deep_view(),
            b.deep_view(),
            |x: CanonApptView, y: CanonApptView| cmp_appt(x, y),
        ),
{
    let ghost f = |x: CanonApptView, y: CanonApptView| cmp_appt(x, y);
    let na = a.len();
    let nb = b.len();
    let n = if na < nb {
        na
    } else {
        nb
    };
    let mut i: usize = 0;
    proof {
        assert(a.deep_view().skip(0) =~= a.deep_view());
        assert(b.deep_view().skip(0) =~= b.deep_view());
    }
    while i < n
        invariant
            i <= n,
            cmp_lex(a.deep_view(), b.deep_view(), f) == cmp_lex(
                a.deep_view().skip(i as int),
                b.deep_view().skip(i as int),
                f,
            ),
        decreases n - i,
    {
        proof {
            assert(a.deep_view().skip(i as int)[0] == a.deep_view()[i as int]);
            assert(b.deep_view().skip(i as int)[0] == b.deep_view()[i as int]);
        }
        let c = cmp_appt_exec(&a[i], &b[i]);
        if c != 0 {
            return c;
        }
        proof {
            assert(a.deep_view().skip(i as int).skip(1) =~= a.deep_view().skip(i + 1));
            assert(b.deep_view().skip(i as int).skip(1) =~= b.deep_view().skip(i + 1));
        }
        i += 1;
    }
    if na < nb {
        -1
    } else if na > nb {
        1
    } else {
        0
    }
}

fn cmp_group_exec(a: &CanonicalSmallGroup, b: &CanonicalSmallGroup) -> (r: i32)
    ensures
        r as int == cmp_group(a@, b@),
{
    let c = cmp_str_exec(a.name.as_str(), b.name.as_str());
    if c != 0 {
        return c;
    }
    cmp_appt_list_exec(&a.appointments, &b.appointments)
}

#[verifier::loop_isolation(false)]
fn cmp_group_list_exec(a: &Vec<CanonicalSmallGroup>, b: &Vec<CanonicalSmallGroup>) -> (r: i32)
    ensures
        r as int == cmp_lex(
            a.deep_view(),
            b.deep_view(),
            |x: CanonGroupView, y: CanonGroupView| cmp_group(x, y),
        ),
{
    let ghost f = |x: CanonGroupView, y: CanonGroupView| cmp_group(x, y);
    let na = a.len();
    let nb = b.len();
    let n = if na < nb {
        na
    } else {
        nb
    };
    let mut i: usize = 0;
    proof {
        assert(a.deep_view().skip(0) =~= a.deep_view());
        assert(b.deep_view().skip(0) =~= b.deep_view());
    }
    while i < n
        invariant
            i <= n,
            cmp_lex(a.deep_view(), b.deep_view(), f) == cmp_lex(
                a.deep_view().skip(i as int),
                b.deep_view().skip(i as int),
                f,
            ),
        decreases n - i,
    {
        proof {
            assert(a.deep_view().skip(i as int)[0] == a.deep_view()[i as int]);
            assert(b.deep_view().skip(i as int)[0] == b.deep_view()[i as int]);
        }
        let c = cmp_group_exec(&a[i], &b[i]);
        if c != 0 {
            return c;
        }
        proof {
            assert(a.deep_view().skip(i as int).skip(1) =~= a.deep_view().skip(i + 1));
            assert(b.deep_view().skip(i as int).skip(1) =~= b.deep_view().skip(i + 1));
        }
        i += 1;
    }
    if na < nb {
        -1
    } else if na > nb {
        1
    } else {
        0
    }
}

/// Compares two published courses over every field, in declaration order.
pub fn cmp_course_exec(a: &CanonicalCourse, b: &CanonicalCourse) -> (r: i32)
    ensures
        r as int == cmp_course(a@, b@),
{
    let c = cmp_str_exec(a.id.as_str(), b.id.as_str());
    if c != 0 {
        return c;
    }
    let c = cmp_str_exec(a.name.as_str(), b.name.as_str());
    if c != 0 {
        return c;
    }
    let c = cmp_opt_str_exec(&a.description, &b.description);
    if c != 0 {
        return c;
    }
    let c = cmp_opt_str_exec(&a.ou, &b.ou);
    if c != 0 {
        return c;
    }
    let c = cmp_opt_str_exec(&a.instructors, &b.instructors);
    if c != 0 {
        return c;
    }
    let c = cmp_group_list_exec(&a.small_groups, &b.small_groups);
    if c != 0 {
        return c;
    }
    cmp_appt_list_exec(&a.appointments, &b.appointments)
}

// ---------------------------------------------------------------------------
// Sorting a collision group
// ---------------------------------------------------------------------------

/// Sorts courses by the full-record order; the result is exactly the
/// mathematical sort of the input.
#[verifier::loop_isolation(false)]
pub fn sort_courses(v: Vec<CanonicalCourse>) -> (r: Vec<CanonicalCourse>)
    ensures
        r.deep_view() == v.deep_view().sort_by(
            |x: CanonCourseView, y: CanonCourseView| course_le(x, y),
        ),
{
    broadcast use vstd::multiset::group_multiset_axioms;

    let ghost le = |x: CanonCourseView, y: CanonCourseView| course_le(x, y);
    proof {
        lemma_course_le_total();
    }
    let mut rest = v;
    let mut out: Vec<CanonicalCourse> = Vec::new();
    proof {
        assert(out.deep_view() =~= Seq::<CanonCourseView>::empty());
        out.deep_view().to_multiset_ensures();
        rest.deep_view().to_multiset_ensures();
        assert(out.deep_view().to_multiset().add(rest.deep_view().to_multiset())
            =~= v.deep_view().to_multiset());
    }
    while rest.len() > 0
        invariant
            out.deep_view().to_multiset().add(rest.deep_view().to_multiset())
                == v.deep_view().to_multiset(),
            vstd::relations::sorted_by(out.deep_view(), le),
            forall|p: int, q: int|
                0 <= p < out.deep_view().len() && 0 <= q < rest.deep_view().len() ==> le(
                    #[trigger] out.deep_view()[p],
                    #[trigger] rest.deep_view()[q],
                ),
        decreases rest.len(),
    {
        let ghost rdv = rest.deep_view();
        let mut m: usize = 0;
        let mut k: usize = 1;
        while k < rest.len()
            invariant
                m < k <= rest.len(),
                rest.deep_view() == rdv,
                forall|j: int| 0 <= j < k ==> le(rdv[m as int], #[trigger] rdv[j]),
            decreases rest.len() - k,
        {
            let c = cmp_course_exec(&rest[k], &rest[m]);
            proof {
                lemma_cmp_course_proper();
            }
            if c < 0 {
                proof {
                    assert(cmp_course(rdv[k as int], rdv[m as int]) < 0);
                    assert(le(rdv[k as int], rdv[m as int]));
                    assert forall|j: int| 0 <= j < k + 1 implies le(
                        rdv[k as int],
                        #[trigger] rdv[j],
                    ) by {
                        if j < k {
                            assert(le(rdv[m as int], rdv[j]));
                            assert(vstd::relations::transitive(le));
                        }
                    }
                }
                m = k;
            } else {
                proof {
                    let fc = |a: CanonCourseView, b: CanonCourseView| cmp_course(a, b);
                    assert(fc(rdv[k as int], rdv[m as int]) >= 0);
                    assert(fc(rdv[m as int], rdv[k as int]) == -fc(rdv[k as int], rdv[m as int]));
                    assert(le(rdv[m as int], rdv[k as int]));
                }
            }
            k += 1;
        }
        let ghost prev_out = out.deep_view();
        let ghost x = rdv[m as int];
        let picked = rest.remove(m);
        out.push(picked);
        proof {
            assert(picked@ == x);
            assert(rest.deep_view() =~= rdv.remove(m as int));
            rdv.to_multiset_ensures();
            prev_out.to_multiset_ensures();
            assert(out.deep_view() =~= prev_out.push(x));
            assert(rest.deep_view().to_multiset() =~= rdv.to_multiset().remove(x));
            assert(out.deep_view().to_multiset() =~= prev_out.to_multiset().insert(x));
            assert(rdv.to_multiset().contains(x)) by {
                assert(rdv.contains(x));
            }
            assert forall|e: CanonCourseView|
                out.deep_view().to_multiset().add(rest.deep_view().to_multiset()).count(e)
                    == v.deep_view().to_multiset().count(e) by {
                assert(prev_out.to_multiset().add(rdv.to_multiset()).count(e)
                    == v.deep_view().to_multiset().count(e));
            }
            assert(out.deep_view().to_multiset().add(rest.deep_view().to_multiset())
                =~= v.deep_view().to_multiset());
            assert forall|p: int, q: int|
                0 <= p < out.deep_view().len() && 0 <= q < rest.deep_view().len() implies le(
                #[trigger] out.deep_view()[p],
                #[trigger] rest.deep_view()[q],
            ) by {
                let rq = rest.deep_view()[q];
                assert(rq == (if q < m {
                    rdv[q]
                } else {
                    rdv[q + 1]
                }));
                if p < prev_out.len() {
                    assert(le(prev_out[p], rq));
                    assert(out.deep_view()[p] == prev_out[p]);
                } else {
                    assert(out.deep_view()[p] == x);
                    assert(le(x, rq));
                }
            }
            assert(vstd::relations::sorted_by(out.deep_view(), le)) by {
                assert forall|p: int, q: int|
                    0 <= p < q < out.deep_view().len() implies le(
                    out.deep_view()[p],
                    out.deep_view()[q],
                ) by {
                    if q < prev_out.len() {
                        assert(le(prev_out[p], prev_out[q]));
                    } else {
                        assert(out.deep_view()[q] == x);
                        assert(le(prev_out[p], rdv[m as int]));
                    }
                }
            }
        }
    }
    proof {
        rest.deep_view().to_multiset_ensures();
        assert(rest.deep_view().to_multiset().len() == 0);
        assert forall|e: CanonCourseView|
            out.deep_view().to_multiset().count(e) == v.deep_view().to_multiset().count(e) by {
            assert(out.deep_view().to_multiset().add(rest.deep_view().to_multiset()).count(e)
                == v.deep_view().to_multiset().count(e));
            assert(rest.deep_view().to_multiset().count(e) == 0);
        }
        assert(out.deep_view().to_multiset() =~= v.deep_view().to_multiset());
        v.deep_view().lemma_sort_by_ensures(le);
        vstd::seq_lib::lemma_sorted_unique(out.deep_view(), v.deep_view().sort_by(le), le);
    }
    out
}

// ---------------------------------------------------------------------------
// What canonicalization refuses, and in which order
// ---------------------------------------------------------------------------

/// Two small groups share a source URL.
pub open spec fn has_dup_group_urls(groups: Seq<SmallGroupView>) -> bool {
    exists|i: int, j: int|
        #![trigger groups[i].url, groups[j].url]
        0 <= i < j < groups.len() && groups[i].url == groups[j].url
}

/// Why one small group cannot be published, if anything.
pub open spec fn group_error(g: SmallGroupView) -> Option<CanonError> {
    if g.path.len() == 0 {
        Some(CanonError::MalformedBreadcrumb)
    } else if !appointments_convertible(g.appointments) {
        Some(CanonError::MalformedAppointment)
    } else {
        None
    }
}

/// The first group's error, in snapshot order.
pub open spec fn first_group_error(groups: Seq<SmallGroupView>) -> Option<CanonError>
    decreases groups.len(),
{
    if groups.len() == 0 {
        None
    } else if group_error(groups[0]) is Some {
        group_error(groups[0])
    } else {
        first_group_error(groups.skip(1))
    }
}

proof fn lemma_first_group_error_none(groups: Seq<SmallGroupView>)
    requires
        forall|j: int| 0 <= j < groups.len() ==> group_error(#[trigger] groups[j]) is None,
    ensures
        first_group_error(groups) is None,
    decreases groups.len(),
{
    if groups.len() > 0 {
        assert forall|j: int| 0 <= j < groups.skip(1).len() implies group_error(
            #[trigger] groups.skip(1)[j],
        ) is None by {
            assert(groups.skip(1)[j] == groups[j + 1]);
        }
        lemma_first_group_error_none(groups.skip(1));
    }
}

proof fn lemma_first_group_error_some(groups: Seq<SmallGroupView>, i: int)
    requires
        0 <= i < groups.len(),
        forall|j: int| 0 <= j < i ==> group_error(#[trigger] groups[j]) is None,
        group_error(groups[i]) is Some,
    ensures
        first_group_error(groups) == group_error(groups[i]),
    decreases i,
{
    if i == 0 {
    } else {
        assert(group_error(groups[0]) is None);
        assert forall|j: int| 0 <= j < i - 1 implies group_error(
            #[trigger] groups.skip(1)[j],
        ) is None by {
            assert(groups.skip(1)[j] == groups[j + 1]);
        }
        assert(groups.skip(1)[i - 1] == groups[i]);
        lemma_first_group_error_some(groups.skip(1), i - 1);
    }
}

proof fn lemma_first_group_error_covers(groups: Seq<SmallGroupView>)
    requires
        first_group_error(groups) is None,
    ensures
        forall|j: int| 0 <= j < groups.len() ==> group_error(#[trigger] groups[j]) is None,
    decreases groups.len(),
{
    if groups.len() > 0 {
        lemma_first_group_error_covers(groups.skip(1));
        assert forall|j: int| 0 <= j < groups.len() implies group_error(
            #[trigger] groups[j],
        ) is None by {
            if j > 0 {
                assert(groups.skip(1)[j - 1] == groups[j]);
            }
        }
    }
}

/// The position of the first group with this URL, or the group count if none
/// has it.
pub open spec fn group_index(groups: Seq<SmallGroupView>, url: Seq<char>) -> nat
    decreases groups.len(),
{
    if groups.len() == 0 {
        0
    } else if groups[0].url == url {
        0
    } else {
        1 + group_index(groups.skip(1), url)
    }
}

proof fn lemma_group_index(groups: Seq<SmallGroupView>, url: Seq<char>)
    ensures
        group_index(groups, url) <= groups.len(),
        group_index(groups, url) < groups.len() ==> groups[group_index(groups, url) as int].url
            == url,
        forall|j: int| 0 <= j < group_index(groups, url) ==> groups[j].url != url,
    decreases groups.len(),
{
    if groups.len() == 0 {
    } else if groups[0].url == url {
    } else {
        lemma_group_index(groups.skip(1), url);
        assert forall|j: int| 0 <= j < group_index(groups, url) implies groups[j].url != url by {
            if j > 0 {
                assert(groups.skip(1)[j - 1] == groups[j]);
            }
        }
        if group_index(groups, url) < groups.len() {
            assert(groups.skip(1)[group_index(groups, url) - 1] == groups[group_index(
                groups,
                url,
            ) as int]);
        }
    }
}

/// Every small-group reference of the course hits some group.
pub open spec fn course_refs_resolve(c: CourseView, groups: Seq<SmallGroupView>) -> bool {
    forall|i: int|
        0 <= i < c.small_groups.len() ==> group_index(groups, #[trigger] c.small_groups[i])
            < groups.len()
}

/// The course's trail ends in a fragment holding at least a code line and a
/// title line.
pub open spec fn course_breadcrumb_ok(c: CourseView) -> bool {
    c.path.len() > 0 && lines_seq(c.path.last()).len() >= 2
}

/// Why one course cannot be published, if anything: appointments first, then
/// unresolved references, then the breadcrumb.
pub open spec fn course_error(c: CourseView, groups: Seq<SmallGroupView>) -> Option<CanonError> {
    if !appointments_convertible(c.appointments) {
        Some(CanonError::MalformedAppointment)
    } else if !course_refs_resolve(c, groups) {
        Some(CanonError::UnresolvedSmallGroupUrl)
    } else if !course_breadcrumb_ok(c) {
        Some(CanonError::MalformedBreadcrumb)
    } else {
        None
    }
}

/// The first course's error, in snapshot order.
pub open spec fn first_course_error(
    courses: Seq<CourseView>,
    groups: Seq<SmallGroupView>,
) -> Option<CanonError>
    decreases courses.len(),
{
    if courses.len() == 0 {
        None
    } else if course_error(courses[0], groups) is Some {
        course_error(courses[0], groups)
    } else {
        first_course_error(courses.skip(1), groups)
    }
}

proof fn lemma_first_course_error_none(courses: Seq<CourseView>, groups: Seq<SmallGroupView>)
    requires
        forall|j: int|
            0 <= j < courses.len() ==> course_error(#[trigger] courses[j], groups) is None,
    ensures
        first_course_error(courses, groups) is None,
    decreases courses.len(),
{
    if courses.len() > 0 {
        assert forall|j: int| 0 <= j < courses.skip(1).len() implies course_error(
            #[trigger] courses.skip(1)[j],
            groups,
        ) is None by {
            assert(courses.skip(1)[j] == courses[j + 1]);
        }
        lemma_first_course_error_none(courses.skip(1), groups);
    }
}

proof fn lemma_first_course_error_some(
    courses: Seq<CourseView>,
    groups: Seq<SmallGroupView>,
    i: int,
)
    requires
        0 <= i < courses.len(),
        forall|j: int| 0 <= j < i ==> course_error(#[trigger] courses[j], groups) is None,
        course_error(courses[i], groups) is Some,
    ensures
        first_course_error(courses, groups) == course_error(courses[i], groups),
    decreases i,
{
    if i == 0 {
    } else {
        assert(course_error(courses[0], groups) is None);
        assert forall|j: int| 0 <= j < i - 1 implies course_error(
            #[trigger] courses.skip(1)[j],
            groups,
        ) is None by {
            assert(courses.skip(1)[j] == courses[j + 1]);
        }
        assert(courses.skip(1)[i - 1] == courses[i]);
        lemma_first_course_error_some(courses.skip(1), groups, i - 1);
    }
}

// ---------------------------------------------------------------------------
// The published collection, as a function of the snapshot
// ---------------------------------------------------------------------------

/// The code line of the course's last trail fragment.
pub open spec fn course_code(c: CourseView) -> Seq<char>
    recommends
        course_breadcrumb_ok(c),
{
    lines_seq(c.path.last())[0]
}

/// The title line of the course's last trail fragment.
pub open spec fn course_title(c: CourseView) -> Seq<char>
    recommends
        course_breadcrumb_ok(c),
{
    lines_seq(c.path.last())[1]
}

/// The collision-resistant provisional id: the code, `'|'`, and the
/// two-character fingerprint of the title and the instructors.
pub open spec fn provisional_id(c: CourseView) -> Seq<char>
    recommends
        course_breadcrumb_ok(c),
{
    course_code(c) + "|"@ + fingerprint_suffix(course_title(c) + c.instructors)
}

/// The course's referenced small groups, resolved through the snapshot's
/// index and published.
pub open spec fn resolved_groups(c: CourseView, groups: Seq<SmallGroupView>) -> Seq<
    CanonGroupView,
> {
    c.small_groups.map_values(
        |u: Seq<char>| converted_group(groups[group_index(groups, u) as int]),
    )
}

/// The published course before collision ranking, carrying its provisional
/// id.
pub open spec fn provisional_course(c: CourseView, groups: Seq<SmallGroupView>) -> CanonCourseView
    recommends
        course_error(c, groups) is None,
{
    CanonCourseView {
        id: provisional_id(c),
        name: course_title(c),
        description: Some(Seq::<char>::empty()),
        ou: c.ou,
        instructors: Some(c.instructors),
        small_groups: resolved_groups(c, groups),
        appointments: c.appointments.map_values(|a: AppointmentView| converted_appointment(a)),
    }
}

/// Every course published provisionally, in snapshot order.
pub open spec fn provisional_courses(s: SnapshotView) -> Seq<CanonCourseView> {
    s.courses.map_values(|c: CourseView| provisional_course(c, s.small_groups))
}

// ---------------------------------------------------------------------------
// Executable error scans and group conversion
// ---------------------------------------------------------------------------

/// Looks for two small groups sharing a source URL.
#[verifier::loop_isolation(false)]
fn check_dup_urls(groups: &Vec<SmallGroup>) -> (r: bool)
    ensures
        r == has_dup_group_urls(groups.deep_view()),
{
    let ghost dv = groups.deep_view();
    let n = groups.len();
    let mut i: usize = 0;
    while i < n
        invariant
            i <= n,
            forall|p: int, q: int|
                #![trigger dv[p].url, dv[q].url]
                0 <= p < q < dv.len() && p < i ==> dv[p].url != dv[q].url,
        decreases n - i,
    {
        let mut j: usize = i + 1;
        while j < n
            invariant
                i < j <= n,
                forall|q: int|
                    #![trigger dv[q].url]
                    i < q < j ==> dv[i as int].url != dv[q].url,
        decreases n - j,
        {
            if str_eq(groups[i].url.as_str(), groups[j].url.as_str()) {
                proof {
                    assert(dv[i as int].url == dv[j as int].url);
                }
                return true;
            }
            j += 1;
        }
        i += 1;
    }
    false
}

/// Scans the small groups for the first that cannot be published.
#[verifier::loop_isolation(false)]
fn scan_group_errors(groups: &Vec<SmallGroup>) -> (r: Option<CanonError>)
    ensures
        r == first_group_error(groups.deep_view()),
{
    let ghost dv = groups.deep_view();
    let mut i: usize = 0;
    while i < groups.len()
        invariant
            i <= dv.len(),
            forall|j: int| 0 <= j < i ==> group_error(#[trigger] dv[j]) is None,
        decreases dv.len() - i,
    {
        let g = &groups[i];
        proof {
            assert(dv[i as int] == g@);
        }
        if g.path.len() == 0 {
            proof {
                lemma_first_group_error_some(dv, i as int);
            }
            return Some(CanonError::MalformedBreadcrumb);
        }
        if !check_appointments(&g.appointments) {
            proof {
                lemma_first_group_error_some(dv, i as int);
            }
            return Some(CanonError::MalformedAppointment);
        }
        i += 1;
    }
    proof {
        lemma_first_group_error_none(dv);
    }
    None
}

/// Publishes every small group, in snapshot order.
#[verifier::loop_isolation(false)]
fn convert_groups(groups: &Vec<SmallGroup>) -> (r: Vec<CanonicalSmallGroup>)
    requires
        first_group_error(groups.deep_view()) is None,
    ensures
        r.deep_view() == groups.deep_view().map_values(
            |g: SmallGroupView| converted_group(g),
        ),
{
    let ghost dv = groups.deep_view();
    let ghost f = |g: SmallGroupView| converted_group(g);
    proof {
        lemma_first_group_error_covers(dv);
    }
    let mut out: Vec<CanonicalSmallGroup> = Vec::new();
    let mut i: usize = 0;
    while i < groups.len()
        invariant
            i <= dv.len(),
            forall|j: int| 0 <= j < dv.len() ==> group_error(#[trigger] dv[j]) is None,
            out.deep_view() =~= dv.take(i as int).map_values(f),
        decreases dv.len() - i,
    {
        proof {
            assert(group_error(dv[i as int]) is None);
            assert(group_convertible(dv[i as int]));
            assert(dv[i as int] == groups@[i as int]@);
        }
        let ghost prev = out.deep_view();
        out.push(convert_small_group(&groups[i]));
        proof {
            assert(out.deep_view() =~= prev.push(f(dv[i as int])));
            assert(out.deep_view() =~= dv.take(i + 1).map_values(f));
        }
        i += 1;
    }
    proof {
        assert(dv.take(dv.len() as int) =~= dv);
    }
    out
}

proof fn lemma_first_course_error_covers(courses: Seq<CourseView>, groups: Seq<SmallGroupView>)
    requires
        first_course_error(courses, groups) is None,
    ensures
        forall|j: int|
            0 <= j < courses.len() ==> course_error(#[trigger] courses[j], groups) is None,
    decreases courses.len(),
{
    if courses.len() > 0 {
        lemma_first_course_error_covers(courses.skip(1), groups);
        assert forall|j: int| 0 <= j < courses.len() implies course_error(
            #[trigger] courses[j],
            groups,
        ) is None by {
            if j > 0 {
                assert(courses.skip(1)[j - 1] == courses[j]);
            }
        }
    }
}

/// Finds the first small group with this URL; the group count means none
/// has it.
#[verifier::loop_isolation(false)]
fn find_group(groups: &Vec<SmallGroup>, url: &str) -> (r: usize)
    ensures
        r as nat == group_index(groups.deep_view(), url@),
        r <= groups.deep_view().len(),
{
    let ghost dv = groups.deep_view();
    let n = groups.len();
    let mut i: usize = 0;
    while i < n
        invariant
            i <= n,
            forall|j: int| 0 <= j < i ==> (#[trigger] dv[j]).url != url@,
        decreases n - i,
    {
        proof {
            assert(dv[i as int] == groups@[i as int]@);
        }
        if str_eq(groups[i].url.as_str(), url) {
            proof {
                lemma_group_index(dv, url@);
                let gi = group_index(dv, url@);
                if gi < i {
                    assert(dv[gi as int].url != url@);
                }
                if gi > i {
                    assert(dv[i as int].url != url@);
                }
            }
            return i;
        }
        i += 1;
    }
    proof {
        lemma_group_index(dv, url@);
        let gi = group_index(dv, url@);
        if gi < dv.len() {
            assert(dv[gi as int].url != url@);
        }
    }
    n
}

/// Whether every referenced URL hits some small group.
#[verifier::loop_isolation(false)]
fn check_refs(urls: &Vec<String>, groups: &Vec<SmallGroup>) -> (r: bool)
    ensures
        r == (forall|i: int|
            0 <= i < urls.deep_view().len() ==> group_index(
                groups.deep_view(),
                #[trigger] urls.deep_view()[i],
            ) < groups.deep_view().len()),
{
    let ghost udv = urls.deep_view();
    let ghost gdv = groups.deep_view();
    let mut i: usize = 0;
    while i < urls.len()
        invariant
            i <= udv.len(),
            forall|j: int| 0 <= j < i ==> group_index(gdv, #[trigger] udv[j]) < gdv.len(),
        decreases udv.len() - i,
    {
        proof {
            assert(udv[i as int] == urls@[i as int]@);
        }
        let idx = find_group(groups, urls[i].as_str());
        if idx == groups.len() {
            proof {
                assert(group_index(gdv, udv[i as int]) >= gdv.len());
            }
            return false;
        }
        i += 1;
    }
    true
}

/// Scans the courses for the first that cannot be published, in the fixed
/// order: appointments, references, breadcrumb.
#[verifier::loop_isolation(false)]
fn scan_course_errors(courses: &Vec<Course>, groups: &Vec<SmallGroup>) -> (r: Option<CanonError>)
    ensures
        r == first_course_error(courses.deep_view(), groups.deep_view()),
{
    let ghost cdv = courses.deep_view();
    let ghost gdv = groups.deep_view();
    let mut i: usize = 0;
    while i < courses.len()
        invariant
            i <= cdv.len(),
            forall|j: int| 0 <= j < i ==> course_error(#[trigger] cdv[j], gdv) is None,
        decreases cdv.len() - i,
    {
        let c = &courses[i];
        proof {
            assert(cdv[i as int] == c@);
        }
        if !check_appointments(&c.appointments) {
            proof {
                lemma_first_course_error_some(cdv, gdv, i as int);
            }
            return Some(CanonError::MalformedAppointment);
        }
        let refs_ok = check_refs(&c.small_groups, groups);
        proof {
            assert(cdv[i as int].small_groups == c.small_groups.deep_view());
        }
        if !refs_ok {
            proof {
                assert(!course_refs_resolve(cdv[i as int], gdv));
                lemma_first_course_error_some(cdv, gdv, i as int);
            }
            return Some(CanonError::UnresolvedSmallGroupUrl);
        }
        proof {
            assert(course_refs_resolve(cdv[i as int], gdv));
        }
        let plen = c.path.len();
        let breadcrumb_bad: bool = if plen == 0 {
            true
        } else {
            let last = &c.path.fragments[plen - 1];
            proof {
                assert(last@ == cdv[i as int].path.last());
            }
            let lines = lines_of(last.as_str());
            lines.len() < 2
        };
        proof {
            assert(breadcrumb_bad == !course_breadcrumb_ok(cdv[i as int]));
        }
        if breadcrumb_bad {
            proof {
                lemma_first_course_error_some(cdv, gdv, i as int);
            }
            return Some(CanonError::MalformedBreadcrumb);
        }
        i += 1;
    }
    proof {
        lemma_first_course_error_none(cdv, gdv);
    }
    None
}

/// Publishes every course provisionally, in snapshot order.
#[verifier::loop_isolation(false)]
fn convert_courses(
    courses: &Vec<Course>,
    groups: &Vec<SmallGroup>,
    conv_groups: &Vec<CanonicalSmallGroup>,
) -> (r: Vec<CanonicalCourse>)
    requires
        first_course_error(courses.deep_view(), groups.deep_view()) is None,
        conv_groups.deep_view() == groups.deep_view().map_values(
            |g: SmallGroupView| converted_group(g),
        ),
    ensures
        r.deep_view() == courses.deep_view().map_values(
            |c: CourseView| provisional_course(c, groups.deep_view()),
        ),
{
    let ghost cdv = courses.deep_view();
    let ghost gdv = groups.deep_view();
    let ghost f = |c: CourseView| provisional_course(c, gdv);
    proof {
        lemma_first_course_error_covers(cdv, gdv);
    }
    let mut out: Vec<CanonicalCourse> = Vec::new();
    let mut i: usize = 0;
    while i < courses.len()
        invariant
            i <= cdv.len(),
            out.deep_view() =~= cdv.take(i as int).map_values(f),
        decreases cdv.len() - i,
    {
        let c = &courses[i];
        proof {
            assert(cdv[i as int] == c@);
            assert(course_error(cdv[i as int], gdv) is None);
        }
        let ghost rg = |u: Seq<char>| converted_group(gdv[group_index(gdv, u) as int]);
        let mut resolved: Vec<CanonicalSmallGroup> = Vec::new();
        let mut k: usize = 0;
        while k < c.small_groups.len()
            invariant
                k <= c@.small_groups.len(),
                resolved.deep_view() =~= c@.small_groups.take(k as int).map_values(rg),
            decreases c@.small_groups.len() - k,
        {
            proof {
                assert(c@.small_groups[k as int] == c.small_groups@[k as int]@);
                assert(course_refs_resolve(cdv[i as int], gdv));
                assert(group_index(gdv, c@.small_groups[k as int]) < gdv.len());
            }
            let idx = find_group(groups, c.small_groups[k].as_str());
            proof {
                assert(conv_groups.deep_view().len() == gdv.len());
                assert(conv_groups@.len() == conv_groups.deep_view().len());
            }
            let ghost prev = resolved.deep_view();
            let g = conv_groups[idx].clone();
            proof {
                assert(conv_groups.deep_view()[idx as int] == converted_group(gdv[idx as int]));
                assert(g@ == rg(c@.small_groups[k as int]));
            }
            resolved.push(g);
            proof {
                assert(resolved.deep_view() =~= prev.push(rg(c@.small_groups[k as int])));
                assert(resolved.deep_view() =~= c@.small_groups.take(k + 1).map_values(rg));
            }
            k += 1;
        }
        proof {
            assert(c@.small_groups.take(c@.small_groups.len() as int) =~= c@.small_groups);
            assert(resolved.deep_view() =~= resolved_groups(cdv[i as int], gdv));
        }
        let plen = c.path.len();
        let last = &c.path.fragments[plen - 1];
        proof {
            assert(last@ == cdv[i as int].path.last());
        }
        let lines = lines_of(last.as_str());
        let code = lines[0].clone();
        let title = lines[1].clone();
        proof {
            assert(code@ == course_code(cdv[i as int]));
            assert(title@ == course_title(cdv[i as int]));
        }
        let fp_input = title.clone().concat(c.instructors.as_str());
        let suffix = suffix_of_fingerprint(fp_input.as_str());
        let id = code.concat("|").concat(suffix.as_str());
        proof {
            assert(id@ =~= provisional_id(cdv[i as int]));
        }
        let appointments = convert_appointments(&c.appointments);
        let course_out = CanonicalCourse {
            id,
            name: title,
            description: Some(String::new()),
            ou: match &c.ou {
                Some(s) => Some(s.clone()),
                None => None,
            },
            instructors: Some(c.instructors.clone()),
            small_groups: resolved,
            appointments,
        };
        proof {
            assert(course_out@.ou =~= cdv[i as int].ou);
            assert(course_out@.appointments =~= cdv[i as int].appointments.map_values(
                |a: AppointmentView| converted_appointment(a),
            ));
            assert(course_out@ =~= f(cdv[i as int]));
        }
        let ghost prev_out = out.deep_view();
        out.push(course_out);
        proof {
            assert(out.deep_view() =~= prev_out.push(f(cdv[i as int])));
            assert(out.deep_view() =~= cdv.take(i + 1).map_values(f));
        }
        i += 1;
    }
    proof {
        assert(cdv.take(cdv.len() as int) =~= cdv);
    }
    out
}

// ---------------------------------------------------------------------------
// Grouping by provisional id and ranking collisions
// ---------------------------------------------------------------------------

/// The distinct provisional ids, in first-occurrence order.
pub open spec fn distinct_ids(cs: Seq<CanonCourseView>) -> Seq<Seq<char>>
    decreases cs.len(),
{
    if cs.len() == 0 {
        Seq::empty()
    } else {
        let prev = distinct_ids(cs.drop_last());
        if prev.contains(cs.last().id) {
            prev
        } else {
            prev.push(cs.last().id)
        }
    }
}

/// The courses holding this provisional id, in order.
pub open spec fn members_of(cs: Seq<CanonCourseView>, key: Seq<char>) -> Seq<CanonCourseView> {
    cs.filter(|c: CanonCourseView| c.id == key)
}

/// The sorted group with rank suffixes `":0"`, `":1"`, ... appended to the
/// shared id.
pub open spec fn with_rank_ids(key: Seq<char>, sorted: Seq<CanonCourseView>) -> Seq<
    CanonCourseView,
> {
    Seq::new(
        sorted.len(),
        |i: int|
            CanonCourseView {
                id: key + ":"@ + dec_digits(i as nat),
                name: sorted[i].name,
                description: sorted[i].description,
                ou: sorted[i].ou,
                instructors: sorted[i].instructors,
                small_groups: sorted[i].small_groups,
                appointments: sorted[i].appointments,
            },
    )
}

/// One collision group resolved: a singleton keeps its bare id; a larger
/// group is ordered by the full-record comparison and ranked.
pub open spec fn ranked(key: Seq<char>, members: Seq<CanonCourseView>) -> Seq<CanonCourseView> {
    if members.len() == 1 {
        members
    } else {
        with_rank_ids(
            key,
            members.sort_by(|x: CanonCourseView, y: CanonCourseView| course_le(x, y)),
        )
    }
}

/// All collision groups resolved and flattened, keys in first-occurrence
/// order.
pub open spec fn final_courses(cs: Seq<CanonCourseView>) -> Seq<CanonCourseView> {
    distinct_ids(cs).map_values(|k: Seq<char>| ranked(k, members_of(cs, k))).flatten()
}

/// Whether some key equals this id.
#[verifier::loop_isolation(false)]
fn contains_key(keys: &Vec<String>, id: &str) -> (r: bool)
    ensures
        r == keys.deep_view().contains(id@),
{
    let ghost dv = keys.deep_view();
    let mut j: usize = 0;
    while j < keys.len()
        invariant
            j <= dv.len(),
            forall|p: int| 0 <= p < j ==> #[trigger] dv[p] != id@,
        decreases dv.len() - j,
    {
        proof {
            assert(dv[j as int] == keys@[j as int]@);
        }
        if str_eq(keys[j].as_str(), id) {
            return true;
        }
        j += 1;
    }
    false
}

/// Collects the distinct provisional ids, in first-occurrence order.
#[verifier::loop_isolation(false)]
fn collect_keys(conv: &Vec<CanonicalCourse>) -> (r: Vec<String>)
    ensures
        r.deep_view() == distinct_ids(conv.deep_view()),
{
    let ghost cdv = conv.deep_view();
    let mut keys: Vec<String> = Vec::new();
    let mut i: usize = 0;
    proof {
        assert(keys.deep_view() =~= distinct_ids(cdv.take(0)));
    }
    while i < conv.len()
        invariant
            i <= cdv.len(),
            keys.deep_view() == distinct_ids(cdv.take(i as int)),
        decreases cdv.len() - i,
    {
        proof {
            assert(cdv.take(i + 1).drop_last() =~= cdv.take(i as int));
            assert(cdv.take(i + 1).last() == cdv[i as int]);
            assert(cdv[i as int].id == conv@[i as int].id@);
        }
        let ghost prev = keys.deep_view();
        if !contains_key(&keys, conv[i].id.as_str()) {
            keys.push(conv[i].id.clone());
            proof {
                assert(keys.deep_view() =~= prev.push(cdv[i as int].id));
                assert(keys.deep_view() =~= distinct_ids(cdv.take(i + 1)));
            }
        } else {
            proof {
                assert(keys.deep_view() =~= distinct_ids(cdv.take(i + 1)));
            }
        }
        i += 1;
    }
    proof {
        assert(cdv.take(cdv.len() as int) =~= cdv);
    }
    keys
}

/// Collects the courses holding this id, in order, as copies.
#[verifier::loop_isolation(false)]
fn collect_members(conv: &Vec<CanonicalCourse>, key: &str) -> (r: Vec<CanonicalCourse>)
    ensures
        r.deep_view() == members_of(conv.deep_view(), key@),
{
    let ghost cdv = conv.deep_view();
    let ghost pred = |c: CanonCourseView| c.id == key@;
    let mut out: Vec<CanonicalCourse> = Vec::new();
    let mut i: usize = 0;
    while i < conv.len()
        invariant
            i <= cdv.len(),
            out.deep_view() =~= cdv.take(i as int).filter(pred),
        decreases cdv.len() - i,
    {
        let ghost x = cdv[i as int];
        proof {
            reveal_with_fuel(Seq::<_>::filter, 2);
            assert(cdv.take(i + 1) =~= cdv.take(i as int) + seq![x]);
            Seq::filter_distributes_over_add(cdv.take(i as int), seq![x], pred);
            assert(seq![x].drop_last() =~= Seq::<CanonCourseView>::empty());
            assert(seq![x].filter(pred) =~= (if pred(x) {
                seq![x]
            } else {
                Seq::<CanonCourseView>::empty()
            }));
            assert(x.id == conv@[i as int].id@);
        }
        let ghost prev = out.deep_view();
        if str_eq(conv[i].id.as_str(), key) {
            out.push(conv[i].clone());
            proof {
                assert(out.deep_view() =~= prev.push(x));
                assert(out.deep_view() =~= cdv.take(i + 1).filter(pred));
            }
        } else {
            proof {
                assert(out.deep_view() =~= cdv.take(i + 1).filter(pred));
            }
        }
        i += 1;
    }
    proof {
        assert(cdv.take(cdv.len() as int) =~= cdv);
    }
    out
}

/// Resolves one collision group: a singleton keeps its id, a larger group
/// is sorted and its members' ids gain their rank.
#[verifier::loop_isolation(false)]
fn rank_members(key: &String, members: Vec<CanonicalCourse>) -> (r: Vec<CanonicalCourse>)
    ensures
        r.deep_view() == ranked(key@, members.deep_view()),
{
    if members.len() == 1 {
        return members;
    }
    let ghost mdv = members.deep_view();
    let sorted = sort_courses(members);
    let ghost sdv = sorted.deep_view();
    let mut out: Vec<CanonicalCourse> = Vec::new();
    let mut i: usize = 0;
    while i < sorted.len()
        invariant
            i <= sdv.len(),
            sorted.deep_view() == sdv,
            out.deep_view().len() == i,
            forall|j: int| 0 <= j < i ==> out.deep_view()[j] == with_rank_ids(key@, sdv)[j],
        decreases sdv.len() - i,
    {
        let mut c = sorted[i].clone();
        let rank = u64_dec(i as u64);
        c.id = key.clone().concat(":").concat(rank.as_str());
        proof {
            assert((i as u64) as nat == i as nat);
            assert(c@.id =~= key@ + ":"@ + dec_digits(i as nat));
            assert(sorted@[i as int]@ == sdv[i as int]);
            assert(c@ =~= with_rank_ids(key@, sdv)[i as int]);
        }
        let ghost prev = out.deep_view();
        out.push(c);
        proof {
            assert(out.deep_view() =~= prev.push(c@));
        }
        i += 1;
    }
    proof {
        assert(out.deep_view() =~= with_rank_ids(key@, sdv));
        assert(out.deep_view() =~= ranked(key@, mdv));
    }
    out
}

/// Groups the provisional courses by id, resolves every collision group,
/// and flattens the groups in first-occurrence key order.
#[verifier::loop_isolation(false)]
pub fn group_and_rank(conv: &Vec<CanonicalCourse>) -> (r: Vec<CanonicalCourse>)
    ensures
        r.deep_view() == final_courses(conv.deep_view()),
{
    broadcast use vstd::prelude::Seq::lemma_flatten_push;

    let ghost cdv = conv.deep_view();
    let ghost fk = |k: Seq<char>| ranked(k, members_of(cdv, k));
    let keys = collect_keys(conv);
    let ghost kdv = keys.deep_view();
    let mut out: Vec<CanonicalCourse> = Vec::new();
    let mut i: usize = 0;
    proof {
        assert(kdv.take(0).map_values(fk) =~= Seq::<Seq<CanonCourseView>>::empty());
        assert(out.deep_view() =~= kdv.take(0).map_values(fk).flatten());
    }
    while i < keys.len()
        invariant
            i <= kdv.len(),
            keys.deep_view() == kdv,
            out.deep_view() == kdv.take(i as int).map_values(fk).flatten(),
        decreases kdv.len() - i,
    {
        proof {
            assert(kdv[i as int] == keys@[i as int]@);
        }
        let members = collect_members(conv, keys[i].as_str());
        let mut ranked_group = rank_members(&keys[i], members);
        let ghost prev = out.deep_view();
        let ghost rdv = ranked_group.deep_view();
        out.append(&mut ranked_group);
        proof {
            assert(out.deep_view() =~= prev + rdv);
            assert(rdv == fk(kdv[i as int]));
            assert(kdv.take(i + 1).map_values(fk) =~= kdv.take(i as int).map_values(fk).push(
                fk(kdv[i as int]),
            ));
            assert(kdv.take(i as int).map_values(fk).push(fk(kdv[i as int])).flatten()
                =~= kdv.take(i as int).map_values(fk).flatten() + fk(kdv[i as int]));
            assert(out.deep_view() =~= kdv.take(i + 1).map_values(fk).flatten());
        }
        i += 1;
    }
    proof {
        assert(kdv.take(kdv.len() as int) =~= kdv);
        assert(out.deep_view() =~= final_courses(cdv));
    }
    out
}

// ---------------------------------------------------------------------------
// Canonicalization, end to end
// ---------------------------------------------------------------------------

/// What canonicalization yields for any snapshot: the first fatal condition
/// in a fixed scan order, or the finished document. Duplicate small-group
/// URLs are checked first, then every small group in order, then every
/// course in order.
pub open spec fn spec_canonicalize(s: SnapshotView) -> Result<SemesterDocView, CanonError> {
    if has_dup_group_urls(s.small_groups) {
        Err(CanonError::DuplicateSmallGroupUrl)
    } else if first_group_error(s.small_groups) is Some {
        Err(first_group_error(s.small_groups)->Some_0)
    } else if first_course_error(s.courses, s.small_groups) is Some {
        Err(first_course_error(s.courses, s.small_groups)->Some_0)
    } else {
        Ok(
            SemesterDocView {
                name: s.semester,
                created: formatted_timestamp(s.start_time),
                courses: final_courses(provisional_courses(s)),
            },
        )
    }
}

/// Turns one crawl snapshot into the published semester document, or
/// reports the first fatal inconsistency and produces nothing. The result
/// is exactly `spec_canonicalize` of the snapshot.
pub fn canonicalize(snapshot: &StateSerializable) -> (r: Result<SemesterDocument, CanonError>)
    ensures
        match r {
            Ok(d) => spec_canonicalize(snapshot@) == Ok::<SemesterDocView, CanonError>(d@),
            Err(e) => spec_canonicalize(snapshot@) == Err::<SemesterDocView, CanonError>(e),
        },
{
    let ghost s = snapshot@;
    if check_dup_urls(&snapshot.small_groups) {
        return Err(CanonError::DuplicateSmallGroupUrl);
    }
    match scan_group_errors(&snapshot.small_groups) {
        Some(e) => {
            return Err(e);
        },
        None => {},
    }
    match scan_course_errors(&snapshot.courses, &snapshot.small_groups) {
        Some(e) => {
            return Err(e);
        },
        None => {},
    }
    let conv_groups = convert_groups(&snapshot.small_groups);
    let conv = convert_courses(&snapshot.courses, &snapshot.small_groups, &conv_groups);
    proof {
        assert(conv.deep_view() =~= provisional_courses(s));
    }
    let courses = group_and_rank(&conv);
    let doc = SemesterDocument {
        name: snapshot.semester.clone(),
        created: format_timestamp(&snapshot.start_time),
        courses,
    };
    proof {
        assert(doc@ =~= (spec_canonicalize(s)->Ok_0));
    }
    Ok(doc)
}

// ---------------------------------------------------------------------------
// Laws
// ---------------------------------------------------------------------------

/// Canonicalization is deterministic: on equal snapshots it yields equal
/// results, so with `canonicalize`'s contract two runs over one snapshot
/// assign identical ids and produce the same course collection.
pub proof fn lemma_canonicalize_deterministic(a: SnapshotView, b: SnapshotView)
    requires
        a == b,
    ensures
        spec_canonicalize(a) == spec_canonicalize(b),
{
}

/// A collision group of two or more members is ordered by the full-record
/// comparison and its members' final ids take the shared id plus `":<rank>"`
/// in that order, while a singleton group keeps its bare id.
pub proof fn lemma_rank_ids(cs: Seq<CanonCourseView>, key: Seq<char>)
    ensures
        members_of(cs, key).len() == 1 ==> ranked(key, members_of(cs, key)) == members_of(
            cs,
            key,
        ),
        members_of(cs, key).len() >= 2 ==> {
            let le = |x: CanonCourseView, y: CanonCourseView| course_le(x, y);
            let sorted = members_of(cs, key).sort_by(le);
            let out = ranked(key, members_of(cs, key));
            &&& out.len() == members_of(cs, key).len()
            &&& vstd::relations::sorted_by(sorted, le)
            &&& sorted.to_multiset() == members_of(cs, key).to_multiset()
            &&& forall|i: int|
                0 <= i < out.len() ==> (#[trigger] out[i]).id == key + ":"@ + dec_digits(i as nat)
            &&& forall|i: int|
                0 <= i < out.len() ==> (#[trigger] out[i]).name == sorted[i].name && out[i].description
                    == sorted[i].description && out[i].ou == sorted[i].ou && out[i].instructors
                    == sorted[i].instructors && out[i].small_groups == sorted[i].small_groups
                    && out[i].appointments == sorted[i].appointments
        },
{
    lemma_course_le_total();
    let le = |x: CanonCourseView, y: CanonCourseView| course_le(x, y);
    if members_of(cs, key).len() >= 2 {
        members_of(cs, key).lemma_sort_by_ensures(le);
        members_of(cs, key).to_multiset_ensures();
        members_of(cs, key).sort_by(le).to_multiset_ensures();
    }
}

} // verus!
