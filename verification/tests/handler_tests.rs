use paul_scrape_rs::handler::{handle_extraction, Extraction};
use paul_scrape_rs::model::{Appointment, Course, CoursePage, SmallGroup};
use paul_scrape_rs::path::Path;
use paul_scrape_rs::queue::{Queue, QueueEntry};
use paul_scrape_rs::scheduler::{begin_task, finish_task, scheduler_tick, TickAction};

fn appointment(date: &str, from: &str, to: &str) -> Appointment {
    Appointment {
        start_time: (date.to_string(), from.to_string()),
        end_time: (date.to_string(), to.to_string()),
        room: "R1".to_string(),
        instructors: "Smith".to_string(),
    }
}

#[test]
fn bootstrap_filters_to_the_target_semester() {
    let semesters = vec![
        ("Sommer 2023".to_string(), "https://example.test/s23".to_string()),
        ("Winter 2023/24".to_string(), "https://example.test/w23".to_string()),
        ("Sommer 2023".to_string(), "https://example.test/s23b".to_string()),
    ];
    let r = handle_extraction("Sommer 2023", Extraction::Semesters(semesters));
    assert!(r.course.is_none());
    assert!(r.small_group.is_none());
    assert_eq!(r.new_entries.len(), 2);
    match &r.new_entries[0] {
        QueueEntry::Tree(url, path) => {
            assert_eq!(url, "https://example.test/s23");
            assert_eq!(path.fragments, vec!["Sommer 2023".to_string()]);
        }
        other => panic!("expected a tree entry, got {:?}", other),
    }
}

#[test]
fn bootstrap_with_no_match_yields_no_work() {
    let semesters = vec![("Winter 2022/23".to_string(), "https://example.test/w22".to_string())];
    let r = handle_extraction("Sommer 2023", Extraction::Semesters(semesters));
    assert_eq!(r.new_entries.len(), 0);
}

#[test]
fn branch_page_enqueues_branches_then_leaves() {
    let root = Path::new().push("Sommer 2023".to_string());
    let branches = vec![
        ("https://example.test/b1".to_string(), root.push("Math".to_string())),
        ("https://example.test/b2".to_string(), root.push("CS".to_string())),
    ];
    let courses = vec![CoursePage {
        url: "https://example.test/c1".to_string(),
        path: root.push("Course A".to_string()),
    }];
    let r = handle_extraction("Sommer 2023", Extraction::TreeData { courses, branches });
    assert_eq!(r.new_entries.len(), 3);
    assert!(matches!(&r.new_entries[0], QueueEntry::Tree(u, _) if u == "https://example.test/b1"));
    assert!(matches!(&r.new_entries[1], QueueEntry::Tree(u, _) if u == "https://example.test/b2"));
    assert!(matches!(
        &r.new_entries[2],
        QueueEntry::CourseLeaf(u, _) if u == "https://example.test/c1"
    ));
}

#[test]
fn course_page_enqueues_group_links_and_appends_course() {
    let path = Path::new().push("Sommer 2023".to_string());
    let course = Course {
        path: path.push("C1\nTitle".to_string()),
        instructors: "Smith".to_string(),
        ou: None,
        appointments: vec![appointment("Mo 02. Okt. 2023", "09:00", "11:00")],
        small_groups: vec!["https://example.test/g1".to_string()],
    };
    let links = vec![("https://example.test/g1".to_string(), path.push("x".to_string()))];
    let r = handle_extraction("Sommer 2023", Extraction::CourseData {
        course,
        group_links: links,
    });
    assert_eq!(r.new_entries.len(), 1);
    assert!(matches!(
        &r.new_entries[0],
        QueueEntry::SmallGroupLeaf(u, _) if u == "https://example.test/g1"
    ));
    let c = r.course.expect("course should be appended");
    assert_eq!(c.instructors, "Smith");
    assert!(r.small_group.is_none());
}

#[test]
fn group_page_appends_group_only() {
    let sg = SmallGroup {
        url: "https://example.test/g1".to_string(),
        path: Path::new().push("Kleingruppe:\u{a0}G1".to_string()),
        appointments: vec![],
    };
    let r = handle_extraction("Sommer 2023", Extraction::GroupData(sg));
    assert_eq!(r.new_entries.len(), 0);
    assert!(r.course.is_none());
    let g = r.small_group.expect("group should be appended");
    assert_eq!(g.url, "https://example.test/g1");
}

#[test]
fn tick_halts_only_quiescent() {
    let mut q = Queue::new();
    assert!(matches!(scheduler_tick(&mut q, 0), TickAction::Halt));
    assert!(matches!(scheduler_tick(&mut q, 3), TickAction::Idle));
    q.push_back(QueueEntry::Main);
    assert!(matches!(scheduler_tick(&mut q, 0), TickAction::Dispatch(QueueEntry::Main)));
    assert_eq!(q.len(), 0);
}

#[test]
fn in_flight_counter_round_trip() {
    let mut n: u64 = 0;
    begin_task(&mut n);
    begin_task(&mut n);
    assert_eq!(n, 2);
    finish_task(&mut n);
    assert_eq!(n, 1);
    finish_task(&mut n);
    assert_eq!(n, 0);
}
