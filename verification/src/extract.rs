use vstd::prelude::*;
use crate::model::{Appointment, AppointmentView, Course, CoursePage, CoursePageView, SmallGroup};
use crate::path::Path;
use crate::strutil::{
    contains_seq, first_char_at, find_char_from, lemma_first_char_at, normalize_spaces,
    normalized_spaces, split_char, split_char_seq, str_contains, str_contains_char,
    str_starts_with,
};

verus! {

// ---------------------------------------------------------------------------
// Redirect pages
// ---------------------------------------------------------------------------

/// The URL inside a `meta http-equiv=refresh` content attribute of the shape
/// `"<seconds>; url=<target>"`: the part of the second `';'`-separated field
/// after its first `'='`.
pub open spec fn refresh_target(content: Seq<char>) -> Option<Seq<char>> {
    let parts = split_char_seq(content, ';');
    if parts.len() < 2 {
        None
    } else {
        let second = parts[1];
        let i = first_char_at(second, '=');
        if i >= second.len() {
            None
        } else {
            Some(second.skip(i + 1 as int))
        }
    }
}

/// Reads the redirect target out of a refresh content attribute.
pub fn parse_refresh_content(content: &str) -> (r: Option<String>)
    ensures
        match r {
            Some(t) => refresh_target(content@) matches Some(u) && t@ == u,
            None => refresh_target(content@) is None,
        },
{
    let parts = split_char(content, ';');
    if parts.len() < 2 {
        return None;
    }
    let second = parts[1].as_str();
    proof {
        assert(second@ == split_char_seq(content@, ';')[1]);
    }
    let n = second.unicode_len();
    match find_char_from(second, '=', 0) {
        Some(i) => {
            let t = second.substring_char(i + 1, n).to_owned();
            proof {
                lemma_first_char_at(second@, '=');
                assert(first_char_at(second@, '=') == i);
                assert(t@ =~= second@.skip(i + 1));
            }
            Some(t)
        },
        None => {
            proof {
                lemma_first_char_at(second@, '=');
            }
            None
        },
    }
}

// ---------------------------------------------------------------------------
// Semester labels
// ---------------------------------------------------------------------------

/// Whether a root-page link title names a semester: it starts with
/// `"Sommer"` or `"Winter"`.
pub open spec fn is_semester_label(title: Seq<char>) -> bool {
    "Sommer"@.is_prefix_of(title) || "Winter"@.is_prefix_of(title)
}

/// Tests a root-page link title for the semester shape.
pub fn check_semester_label(title: &str) -> (r: bool)
    ensures
        r == is_semester_label(title@),
{
    str_starts_with(title, "Sommer") || str_starts_with(title, "Winter")
}

// ---------------------------------------------------------------------------
// Classifying branch-page links
// ---------------------------------------------------------------------------

/// One anchor found on a branch page: its raw `href`, the absolute URL it
/// resolves to, and its link text.
#[derive(Debug, PartialEq)]
pub struct PageLink {
    pub href: String,
    pub url: String,
    pub text: String,
}

#[verifier::ext_equal]
pub struct PageLinkView {
    pub href: Seq<char>,
    pub url: Seq<char>,
    pub text: Seq<char>,
}

impl View for PageLink {
    type V = PageLinkView;

    open spec fn view(&self) -> PageLinkView {
        PageLinkView { href: self.href@, url: self.url@, text: self.text@ }
    }
}

impl DeepView for PageLink {
    type V = PageLinkView;

    open spec fn deep_view(&self) -> PageLinkView {
        self.view()
    }
}

/// A link whose `href` names a course-offering cluster is a further branch.
pub open spec fn is_branch_link(l: PageLinkView) -> bool {
    contains_seq(l.href, "COURSEOFFERINGCLUSTER"@)
}

/// A link whose `href` names course details (and not a cluster) is a course
/// leaf.
pub open spec fn is_course_link(l: PageLinkView) -> bool {
    !is_branch_link(l) && contains_seq(l.href, "COURSEDETAILS"@)
}

/// The branches a link list yields, each with the trail extended by the link
/// text.
pub open spec fn classified_branches(links: Seq<PageLinkView>, path: Seq<Seq<char>>) -> Seq<
    (Seq<char>, Seq<Seq<char>>),
> {
    links.filter(|l: PageLinkView| is_branch_link(l)).map_values(
        |l: PageLinkView| (l.url, path.push(l.text)),
    )
}

/// The course leaves a link list yields, each with the trail extended by the
/// link text.
pub open spec fn classified_courses(links: Seq<PageLinkView>, path: Seq<Seq<char>>) -> Seq<
    CoursePageView,
> {
    links.filter(|l: PageLinkView| is_course_link(l)).map_values(
        |l: PageLinkView| CoursePageView { url: l.url, path: path.push(l.text) },
    )
}

/// Sorts the links of a branch page into course leaves and further branches
/// by what their `href` names, extending the breadcrumb trail with each
/// link's text.
#[verifier::loop_isolation(false)]
pub fn classify_links(links: &Vec<PageLink>, path: &Path) -> (r: (Vec<CoursePage>, Vec<
    (String, Path),
>))
    ensures
        r.0.deep_view() == classified_courses(links.deep_view(), path@),
        r.1.deep_view() == classified_branches(links.deep_view(), path@),
{
    let ghost bpred = |l: PageLinkView| is_branch_link(l);
    let ghost cpred = |l: PageLinkView| is_course_link(l);
    let ghost fb = |l: PageLinkView| (l.url, path@.push(l.text));
    let ghost fc = |l: PageLinkView| CoursePageView { url: l.url, path: path@.push(l.text) };
    let mut courses: Vec<CoursePage> = Vec::new();
    let mut branches: Vec<(String, Path)> = Vec::new();
    let mut i: usize = 0;
    while i < links.len()
        invariant
            i <= links.len(),
            courses.deep_view() =~= links.deep_view().take(i as int).filter(cpred).map_values(fc),
            branches.deep_view() =~= links.deep_view().take(i as int).filter(bpred).map_values(fb),
        decreases links.len() - i,
    {
        let ghost dv = links.deep_view();
        let ghost x = dv[i as int];
        proof {
            reveal_with_fuel(Seq::<_>::filter, 2);
            assert(dv.take(i + 1) =~= dv.take(i as int) + seq![x]);
            Seq::filter_distributes_over_add(dv.take(i as int), seq![x], bpred);
            Seq::filter_distributes_over_add(dv.take(i as int), seq![x], cpred);
            assert(seq![x].drop_last() =~= Seq::<PageLinkView>::empty());
            assert(seq![x].filter(bpred) =~= (if bpred(x) {
                seq![x]
            } else {
                Seq::<PageLinkView>::empty()
            }));
            assert(seq![x].filter(cpred) =~= (if cpred(x) {
                seq![x]
            } else {
                Seq::<PageLinkView>::empty()
            }));
        }
        let l = &links[i];
        let ghost prev_b = branches.deep_view();
        let ghost prev_c = courses.deep_view();
        if str_contains(l.href.as_str(), "COURSEOFFERINGCLUSTER") {
            branches.push((l.url.clone(), path.push(l.text.clone())));
            proof {
                assert(branches.deep_view() =~= prev_b.push(fb(x)));
                assert((dv.take(i as int).filter(bpred) + seq![x]).map_values(fb) =~= dv.take(
                    i as int,
                ).filter(bpred).map_values(fb) + seq![fb(x)]);
            }
        } else if str_contains(l.href.as_str(), "COURSEDETAILS") {
            courses.push(CoursePage { url: l.url.clone(), path: path.push(l.text.clone()) });
            proof {
                assert(courses.deep_view() =~= prev_c.push(fc(x)));
                assert((dv.take(i as int).filter(cpred) + seq![x]).map_values(fc) =~= dv.take(
                    i as int,
                ).filter(cpred).map_values(fc) + seq![fc(x)]);
            }
        }
        proof {
            assert(branches.deep_view() =~= dv.take(i + 1).filter(bpred).map_values(fb));
            assert(courses.deep_view() =~= dv.take(i + 1).filter(cpred).map_values(fc));
        }
        i += 1;
    }
    proof {
        let dv = links.deep_view();
        assert(dv.take(dv.len() as int) =~= dv);
    }
    (courses, branches)
}

// ---------------------------------------------------------------------------
// Appointment tables
// ---------------------------------------------------------------------------

/// Whether an appointment table row is kept: it has exactly six cells and
/// its date cell does not reference another appointment with a `'*'`.
pub open spec fn row_kept(row: Seq<Seq<char>>) -> bool {
    row.len() == 6 && !row[1].contains('*')
}

/// The appointment a kept row yields: the date cell with the start and end
/// clock cells, the room cell with its whitespace collapsed, and the
/// instructors cell.
pub open spec fn row_appointment(row: Seq<Seq<char>>) -> AppointmentView
    recommends
        row_kept(row),
{
    AppointmentView {
        start_time: (row[1], row[2]),
        end_time: (row[1], row[3]),
        room: normalized_spaces(row[4]),
        instructors: row[5],
    }
}

/// The appointments an extracted table yields: one per kept row, in order.
pub open spec fn rows_appointments(rows: Seq<Seq<Seq<char>>>) -> Seq<AppointmentView> {
    rows.filter(|r: Seq<Seq<char>>| row_kept(r)).map_values(
        |r: Seq<Seq<char>>| row_appointment(r),
    )
}

/// Builds the appointment records from the cell texts of a table's rows,
/// skipping rows without exactly six cells and rows whose date cell holds a
/// `'*'` reference.
#[verifier::loop_isolation(false)]
pub fn appointments_from_rows(rows: &Vec<Vec<String>>) -> (r: Vec<Appointment>)
    ensures
        r.deep_view() == rows_appointments(rows.deep_view()),
{
    let ghost pred = |row: Seq<Seq<char>>| row_kept(row);
    let ghost f = |row: Seq<Seq<char>>| row_appointment(row);
    let mut out: Vec<Appointment> = Vec::new();
    let mut i: usize = 0;
    while i < rows.len()
        invariant
            i <= rows.len(),
            out.deep_view() =~= rows.deep_view().take(i as int).filter(pred).map_values(f),
        decreases rows.len() - i,
    {
        let ghost dv = rows.deep_view();
        let ghost x = dv[i as int];
        proof {
            reveal_with_fuel(Seq::<_>::filter, 2);
            assert(x == rows@[i as int].deep_view());
            assert(dv.take(i + 1) =~= dv.take(i as int) + seq![x]);
            Seq::filter_distributes_over_add(dv.take(i as int), seq![x], pred);
            assert(seq![x].drop_last() =~= Seq::<Seq<Seq<char>>>::empty());
            assert(seq![x].filter(pred) =~= (if pred(x) {
                seq![x]
            } else {
                Seq::<Seq<Seq<char>>>::empty()
            }));
        }
        let row = &rows[i];
        let ghost prev = out.deep_view();
        if row.len() == 6 && !str_contains_char(row[1].as_str(), '*') {
            let appt = Appointment {
                start_time: (row[1].clone(), row[2].clone()),
                end_time: (row[1].clone(), row[3].clone()),
                room: normalize_spaces(row[4].as_str()),
                instructors: row[5].clone(),
            };
            proof {
                assert(row@[1]@ == x[1]);
                assert(appt@ == f(x));
            }
            out.push(appt);
            proof {
                assert(out.deep_view() =~= prev.push(f(x)));
                assert((dv.take(i as int).filter(pred) + seq![x]).map_values(f) =~= dv.take(
                    i as int,
                ).filter(pred).map_values(f) + seq![f(x)]);
            }
        }
        proof {
            assert(out.deep_view() =~= dv.take(i + 1).filter(pred).map_values(f));
        }
        i += 1;
    }
    proof {
        let dv = rows.deep_view();
        assert(dv.take(dv.len() as int) =~= dv);
    }
    out
}

// ---------------------------------------------------------------------------
// Assembling records
// ---------------------------------------------------------------------------

/// Assembles a raw course record: the trail gains the page title as its last
/// fragment; the small-group URLs are kept as references into the snapshot.
pub fn build_course(
    path: &Path,
    title: String,
    instructors: String,
    ou: Option<String>,
    appointments: Vec<Appointment>,
    group_urls: Vec<String>,
) -> (c: Course)
    ensures
        c@.path == path@.push(title@),
        c@.instructors == instructors@,
        c@.ou == ou.deep_view(),
        c@.appointments == appointments.deep_view(),
        c@.small_groups == group_urls.deep_view(),
{
    Course {
        path: path.push(title),
        instructors,
        ou,
        appointments,
        small_groups: group_urls,
    }
}

/// Pairs every referenced small-group URL with the course's own trail, the
/// form in which the links are enqueued.
#[verifier::loop_isolation(false)]
pub fn group_link_pairs(group_urls: &Vec<String>, path: &Path) -> (r: Vec<(String, Path)>)
    ensures
        r.deep_view() == group_urls.deep_view().map_values(
            |u: Seq<char>| (u, path@),
        ),
{
    let ghost f = |u: Seq<char>| (u, path@);
    let mut out: Vec<(String, Path)> = Vec::new();
    let mut i: usize = 0;
    while i < group_urls.len()
        invariant
            i <= group_urls.len(),
            out.deep_view() =~= group_urls.deep_view().take(i as int).map_values(f),
        decreases group_urls.len() - i,
    {
        let ghost prev = out.deep_view();
        out.push((group_urls[i].clone(), path.clone()));
        proof {
            let dv = group_urls.deep_view();
            assert(out.deep_view() =~= prev.push(f(dv[i as int])));
            assert(out.deep_view() =~= dv.take(i + 1).map_values(f));
        }
        i += 1;
    }
    proof {
        let dv = group_urls.deep_view();
        assert(dv.take(dv.len() as int) =~= dv);
    }
    out
}

/// Assembles a small-group record: the trail gains the page title (still
/// carrying any UI label prefix; canonicalization strips it).
pub fn build_small_group(
    url: String,
    path: &Path,
    title: String,
    appointments: Vec<Appointment>,
) -> (g: SmallGroup)
    ensures
        g@.url == url@,
        g@.path == path@.push(title@),
        g@.appointments == appointments.deep_view(),
{
    SmallGroup { url, path: path.push(title), appointments }
}

} // verus!
