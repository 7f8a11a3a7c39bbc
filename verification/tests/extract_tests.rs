use paul_scrape_rs::extract::{
    appointments_from_rows, build_course, build_small_group, check_semester_label, classify_links,
    group_link_pairs, parse_refresh_content, PageLink,
};
use paul_scrape_rs::path::Path;

fn row(cells: &[&str]) -> Vec<String> {
    cells.iter().map(|c| c.to_string()).collect()
}

#[test]
fn refresh_content_is_parsed() {
    assert_eq!(
        parse_refresh_content("0; URL=https://example.test/start").as_deref(),
        Some("https://example.test/start")
    );
    assert_eq!(parse_refresh_content("just one field"), None);
    assert_eq!(parse_refresh_content("0; no equals sign"), None);
}

#[test]
fn semester_labels() {
    assert!(check_semester_label("Sommer 2023"));
    assert!(check_semester_label("Winter 2023/24"));
    assert!(!check_semester_label("Herbst 2023"));
    assert!(!check_semester_label(""));
}

#[test]
fn links_are_classified_by_href() {
    let path = Path::new().push("Sommer 2023".to_string());
    let links = vec![
        PageLink {
            href: "x?COURSEOFFERINGCLUSTER=1".to_string(),
            url: "https://example.test/cluster".to_string(),
            text: "Math".to_string(),
        },
        PageLink {
            href: "x?COURSEDETAILS=2".to_string(),
            url: "https://example.test/details".to_string(),
            text: "Course A".to_string(),
        },
        PageLink {
            href: "unrelated".to_string(),
            url: "https://example.test/other".to_string(),
            text: "Other".to_string(),
        },
    ];
    let (courses, branches) = classify_links(&links, &path);
    assert_eq!(branches.len(), 1);
    assert_eq!(branches[0].0, "https://example.test/cluster");
    assert_eq!(
        branches[0].1.fragments,
        vec!["Sommer 2023".to_string(), "Math".to_string()]
    );
    assert_eq!(courses.len(), 1);
    assert_eq!(courses[0].url, "https://example.test/details");
    assert_eq!(
        courses[0].path.fragments,
        vec!["Sommer 2023".to_string(), "Course A".to_string()]
    );
}

#[test]
fn rows_become_appointments() {
    let rows = vec![
        row(&["head", "x", "x", "x", "x", "x", "x"]),
        row(&["1", "Mo 02. Okt. 2023", "09:00", "11:00", "A  1\n2", "Smith"]),
        row(&["2", "* see course", "09:00", "11:00", "A1", "Smith"]),
        row(&["too", "short"]),
        row(&["3", "Di 03. Okt. 2023", "13:00", "14:00", "B2", "Lee"]),
    ];
    let appts = appointments_from_rows(&rows);
    assert_eq!(appts.len(), 2);
    assert_eq!(appts[0].start_time.0, "Mo 02. Okt. 2023");
    assert_eq!(appts[0].start_time.1, "09:00");
    assert_eq!(appts[0].end_time.1, "11:00");
    assert_eq!(appts[0].room, "A 1 2");
    assert_eq!(appts[0].instructors, "Smith");
    assert_eq!(appts[1].instructors, "Lee");
}

#[test]
fn course_assembly() {
    let path = Path::new().push("Sommer 2023".to_string());
    let c = build_course(
        &path,
        "C1\nTitle".to_string(),
        "Smith".to_string(),
        Some("Dept".to_string()),
        vec![],
        vec!["https://example.test/g1".to_string()],
    );
    assert_eq!(
        c.path.fragments,
        vec!["Sommer 2023".to_string(), "C1\nTitle".to_string()]
    );
    assert_eq!(c.instructors, "Smith");
    assert_eq!(c.ou.as_deref(), Some("Dept"));
    assert_eq!(c.small_groups, vec!["https://example.test/g1".to_string()]);
    let pairs = group_link_pairs(&c.small_groups, &path);
    assert_eq!(pairs.len(), 1);
    assert_eq!(pairs[0].0, "https://example.test/g1");
    assert_eq!(pairs[0].1.fragments, path.fragments);
}

#[test]
fn small_group_assembly() {
    let path = Path::new().push("Sommer 2023".to_string());
    let g = build_small_group(
        "https://example.test/g1".to_string(),
        &path,
        "Kleingruppe:\u{a0}G1".to_string(),
        vec![],
    );
    assert_eq!(g.url, "https://example.test/g1");
    assert_eq!(
        g.path.fragments,
        vec!["Sommer 2023".to_string(), "Kleingruppe:\u{a0}G1".to_string()]
    );
}
