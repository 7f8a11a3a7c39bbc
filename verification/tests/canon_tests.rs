use paul_scrape_rs::canon::{canonicalize, convert_appointment, convert_small_group, CanonError};
use paul_scrape_rs::model::{Appointment, Course, SmallGroup, StateSerializable};
use paul_scrape_rs::path::Path;
use paul_scrape_rs::timefmt::Timestamp;

fn start_time() -> Timestamp {
    Timestamp { year: 2023, month: 10, day: 2, hour: 7, minute: 5, second: 9 }
}

fn appointment(date: &str, from: &str, to: &str, room: &str) -> Appointment {
    Appointment {
        start_time: (date.to_string(), from.to_string()),
        end_time: (date.to_string(), to.to_string()),
        room: room.to_string(),
        instructors: "Smith".to_string(),
    }
}

fn course(code: &str, title: &str, instructors: &str, room: &str, groups: &[&str]) -> Course {
    Course {
        path: Path::new()
            .push("Sommer 2023".to_string())
            .push(format!("{}\n{}", code, title)),
        instructors: instructors.to_string(),
        ou: None,
        appointments: vec![appointment("Mo 02. Okt. 2023", "09:00", "11:00", room)],
        small_groups: groups.iter().map(|g| g.to_string()).collect(),
    }
}

fn small_group(url: &str, name: &str) -> SmallGroup {
    SmallGroup {
        url: url.to_string(),
        path: Path::new()
            .push("Sommer 2023".to_string())
            .push(format!("Kleingruppe:\u{a0}{}", name)),
        appointments: vec![appointment("Di 03. Okt. 2023", "13:00", "14:00", "G-Room")],
    }
}

fn snapshot(courses: Vec<Course>, groups: Vec<SmallGroup>) -> StateSerializable {
    StateSerializable {
        semester: "Sommer 2023".to_string(),
        start_time: start_time(),
        courses,
        small_groups: groups,
    }
}

#[test]
fn appointments_are_normalized() {
    let a = appointment("Mo 02. Okt. 2023", "24:00", "11:00", "A1");
    let c = convert_appointment(&a);
    assert_eq!(c.start_time, "2023-10-02T23:59:00");
    assert_eq!(c.end_time, "2023-10-02T11:00:00");
    assert_eq!(c.room, "A1");
    assert_eq!(c.instructors, "Smith");
}

#[test]
fn group_name_prefix_is_stripped() {
    let g = convert_small_group(&small_group("https://example.test/g1", "G1"));
    assert_eq!(g.name, "G1");
    assert_eq!(g.appointments.len(), 1);
    assert_eq!(g.appointments[0].start_time, "2023-10-03T13:00:00");
}

#[test]
fn end_to_end_single_chain() {
    let s = snapshot(
        vec![course("L.104", "Verification", "Jones", "A1", &["https://example.test/g1"])],
        vec![small_group("https://example.test/g1", "G1")],
    );
    let doc = canonicalize(&s).expect("canonicalization should succeed");
    assert_eq!(doc.name, "Sommer 2023");
    assert_eq!(doc.created, "2023-10-02T07:05:09");
    assert_eq!(doc.courses.len(), 1);
    let c = &doc.courses[0];
    assert_eq!(c.id, "L.104|c2");
    assert_eq!(c.name, "Verification");
    assert_eq!(c.description.as_deref(), Some(""));
    assert_eq!(c.ou, None);
    assert_eq!(c.instructors.as_deref(), Some("Jones"));
    assert_eq!(c.appointments.len(), 1);
    assert_eq!(c.appointments[0].start_time, "2023-10-02T09:00:00");
    assert_eq!(c.small_groups.len(), 1);
    assert_eq!(c.small_groups[0].name, "G1");
    assert_eq!(c.small_groups[0].appointments.len(), 1);
    assert_eq!(c.small_groups[0].appointments[0].start_time, "2023-10-03T13:00:00");
    assert_eq!(c.small_groups[0].appointments[0].end_time, "2023-10-03T14:00:00");
}

#[test]
fn canonicalization_is_deterministic() {
    let build = || {
        snapshot(
            vec![
                course("K.1", "Algorithms", "Smith", "B2", &["https://example.test/g1"]),
                course("K.1", "Algorithms", "Smith", "A1", &[]),
                course("K.2", "Databases", "Lee", "C3", &[]),
            ],
            vec![small_group("https://example.test/g1", "G1")],
        )
    };
    let d1 = canonicalize(&build()).expect("should succeed");
    let d2 = canonicalize(&build()).expect("should succeed");
    assert_eq!(d1, d2);
}

#[test]
fn colliding_courses_gain_ranks_and_singletons_keep_bare_ids() {
    let s = snapshot(
        vec![
            course("K.1", "Algorithms", "Smith", "B2", &[]),
            course("K.1", "Algorithms", "Smith", "A1", &[]),
            course("K.2", "Databases", "Lee", "C3", &[]),
        ],
        vec![],
    );
    let doc = canonicalize(&s).expect("should succeed");
    assert_eq!(doc.courses.len(), 3);
    let ids: Vec<&str> = doc.courses.iter().map(|c| c.id.as_str()).collect();
    assert!(ids.contains(&"K.1|bd:0"));
    assert!(ids.contains(&"K.1|bd:1"));
    assert!(ids.contains(&"K.2|62"));
    // Rank order follows the full-record comparison: the record whose
    // appointment room is "A1" sorts before the one with "B2".
    let rank0 = doc.courses.iter().find(|c| c.id == "K.1|bd:0").unwrap();
    let rank1 = doc.courses.iter().find(|c| c.id == "K.1|bd:1").unwrap();
    assert_eq!(rank0.appointments[0].room, "A1");
    assert_eq!(rank1.appointments[0].room, "B2");
}

#[test]
fn unresolved_group_reference_is_fatal() {
    let s = snapshot(
        vec![course("K.1", "Algorithms", "Smith", "A1", &["https://example.test/missing"])],
        vec![small_group("https://example.test/g1", "G1")],
    );
    assert_eq!(canonicalize(&s), Err(CanonError::UnresolvedSmallGroupUrl));
}

#[test]
fn duplicate_group_url_is_fatal() {
    let s = snapshot(
        vec![],
        vec![
            small_group("https://example.test/g1", "G1"),
            small_group("https://example.test/g1", "G2"),
        ],
    );
    assert_eq!(canonicalize(&s), Err(CanonError::DuplicateSmallGroupUrl));
}

#[test]
fn single_line_breadcrumb_is_fatal() {
    let mut c = course("K.1", "Algorithms", "Smith", "A1", &[]);
    c.path = Path::new().push("Sommer 2023".to_string()).push("no title line".to_string());
    let s = snapshot(vec![c], vec![]);
    assert_eq!(canonicalize(&s), Err(CanonError::MalformedBreadcrumb));
}

#[test]
fn malformed_date_is_fatal() {
    let mut c = course("K.1", "Algorithms", "Smith", "A1", &[]);
    c.appointments = vec![appointment("not a date", "09:00", "11:00", "A1")];
    let s = snapshot(vec![c], vec![]);
    assert_eq!(canonicalize(&s), Err(CanonError::MalformedAppointment));
}

#[test]
fn empty_snapshot_yields_empty_document() {
    let s = snapshot(vec![], vec![]);
    let doc = canonicalize(&s).expect("should succeed");
    assert_eq!(doc.name, "Sommer 2023");
    assert_eq!(doc.created, "2023-10-02T07:05:09");
    assert_eq!(doc.courses.len(), 0);
}
