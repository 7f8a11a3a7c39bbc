use vstd::prelude::*;
use crate::model::{Course, CoursePage, CoursePageView, SmallGroup};
use crate::path::Path;
use crate::queue::{QueueEntry, QueueEntryView};
use crate::strutil::str_eq;

verus! {

// ---------------------------------------------------------------------------
// What the page extractor hands back
// ---------------------------------------------------------------------------

/// The tagged result of extracting one fetched page, by page kind: the root
/// page yields `(label, url)` semester pairs; a branch page yields course
/// leaves and further branches; a course page yields the raw course and its
/// small-group links; a small-group page yields the group record.
pub enum Extraction {
    Semesters(Vec<(String, String)>),
    TreeData { courses: Vec<CoursePage>, branches: Vec<(String, Path)> },
    CourseData { course: Course, group_links: Vec<(String, Path)> },
    GroupData(SmallGroup),
}

/// What a handler owes the shared state for one extraction: entries to
/// enqueue, and at most one course or small-group record to append.
pub struct HandlerOutcome {
    pub new_entries: Vec<QueueEntry>,
    pub course: Option<Course>,
    pub small_group: Option<SmallGroup>,
}

// ---------------------------------------------------------------------------
// The decisions, as functions of the extraction
// ---------------------------------------------------------------------------

/// The entries the bootstrap page yields: one `Tree` entry per semester pair
/// whose label equals the target exactly, its trail holding just the label.
pub open spec fn semester_tree_entries(
    semesters: Seq<(Seq<char>, Seq<char>)>,
    target: Seq<char>,
) -> Seq<QueueEntryView> {
    semesters.filter(|p: (Seq<char>, Seq<char>)| p.0 == target).map_values(
        |p: (Seq<char>, Seq<char>)| QueueEntryView::Tree(p.1, seq![p.0]),
    )
}

/// The entries a branch page yields: every branch again as `Tree`, then
/// every course leaf as `CourseLeaf`.
pub open spec fn tree_child_entries(
    branches: Seq<(Seq<char>, Seq<Seq<char>>)>,
    courses: Seq<CoursePageView>,
) -> Seq<QueueEntryView> {
    branches.map_values(|b: (Seq<char>, Seq<Seq<char>>)| QueueEntryView::Tree(b.0, b.1))
        + courses.map_values(|c: CoursePageView| QueueEntryView::CourseLeaf(c.url, c.path))
}

/// The entries a course page yields: one `SmallGroupLeaf` per referenced
/// small-group link.
pub open spec fn group_link_entries(links: Seq<(Seq<char>, Seq<Seq<char>>)>) -> Seq<
    QueueEntryView,
> {
    links.map_values(|g: (Seq<char>, Seq<Seq<char>>)| QueueEntryView::SmallGroupLeaf(g.0, g.1))
}

/// The per-task state machine: turns one extraction result into the entries
/// to enqueue and the record to append. The bootstrap result is filtered to
/// the target semester; a missed target simply yields no work. Branch pages
/// enqueue all their children; course pages enqueue their small-group links
/// and append the course; small-group pages append the group.
#[verifier::loop_isolation(false)]
pub fn handle_extraction(target_semester: &str, x: Extraction) -> (r: HandlerOutcome)
    ensures
        match x {
            Extraction::Semesters(list) => {
                &&& r.new_entries.deep_view() == semester_tree_entries(
                    list.deep_view(),
                    target_semester@,
                )
                &&& r.course is None
                &&& r.small_group is None
            },
            Extraction::TreeData { courses, branches } => {
                &&& r.new_entries.deep_view() == tree_child_entries(
                    branches.deep_view(),
                    courses.deep_view(),
                )
                &&& r.course is None
                &&& r.small_group is None
            },
            Extraction::CourseData { course, group_links } => {
                &&& r.new_entries.deep_view() == group_link_entries(group_links.deep_view())
                &&& r.course matches Some(c) && c@ == course@
                &&& r.small_group is None
            },
            Extraction::GroupData(sg) => {
                &&& r.new_entries.deep_view() == Seq::<QueueEntryView>::empty()
                &&& r.course is None
                &&& r.small_group matches Some(g) && g@ == sg@
            },
        },
{
    broadcast use vstd::prelude::Seq::filter_distributes_over_add;

    match x {
        Extraction::Semesters(list) => {
            let ghost pred = |p: (Seq<char>, Seq<char>)| p.0 == target_semester@;
            let ghost f = |p: (Seq<char>, Seq<char>)| QueueEntryView::Tree(p.1, seq![p.0]);
            let mut new_entries: Vec<QueueEntry> = Vec::new();
            let mut i: usize = 0;
            while i < list.len()
                invariant
                    i <= list.len(),
                    new_entries.deep_view() =~= list.deep_view().take(i as int).filter(
                        pred,
                    ).map_values(f),
                decreases list.len() - i,
            {
                let ghost dv = list.deep_view();
                let ghost px = dv[i as int];
                proof {
                    reveal_with_fuel(Seq::<_>::filter, 2);
                    assert(px == (list@[i as int].0@, list@[i as int].1@));
                    assert(dv.take(i + 1) =~= dv.take(i as int) + seq![px]);
                    Seq::filter_distributes_over_add(dv.take(i as int), seq![px], pred);
                    assert(seq![px].drop_last() =~= Seq::<(Seq<char>, Seq<char>)>::empty());
                    assert(seq![px].filter(pred) =~= (if pred(px) {
                        seq![px]
                    } else {
                        Seq::<(Seq<char>, Seq<char>)>::empty()
                    }));
                }
                let ghost prev = new_entries.deep_view();
                let pair = &list[i];
                if str_eq(pair.0.as_str(), target_semester) {
                    let entry = QueueEntry::Tree(pair.1.clone(), Path::new().push(pair.0.clone()));
                    proof {
                        assert(entry@ == f(px));
                    }
                    new_entries.push(entry);
                    proof {
                        assert(new_entries.deep_view() =~= prev.push(f(px)));
                        assert((dv.take(i as int).filter(pred) + seq![px]).map_values(f) =~= dv.take(
                            i as int,
                        ).filter(pred).map_values(f) + seq![f(px)]);
                        assert(new_entries.deep_view() =~= dv.take(i + 1).filter(pred).map_values(
                            f,
                        ));
                    }
                } else {
                    proof {
                        assert(new_entries.deep_view() =~= dv.take(i + 1).filter(pred).map_values(
                            f,
                        ));
                    }
                }
                i += 1;
            }
            proof {
                let dv = list.deep_view();
                assert(dv.take(dv.len() as int) =~= dv);
            }
            HandlerOutcome { new_entries, course: None, small_group: None }
        },
        Extraction::TreeData { courses, branches } => {
            let ghost fb = |b: (Seq<char>, Seq<Seq<char>>)| QueueEntryView::Tree(b.0, b.1);
            let ghost fc = |c: CoursePageView| QueueEntryView::CourseLeaf(c.url, c.path);
            let mut new_entries: Vec<QueueEntry> = Vec::new();
            let mut i: usize = 0;
            while i < branches.len()
                invariant
                    i <= branches.len(),
                    new_entries.deep_view() =~= branches.deep_view().take(i as int).map_values(fb),
                decreases branches.len() - i,
            {
                let ghost prev = new_entries.deep_view();
                let b = &branches[i];
                new_entries.push(QueueEntry::Tree(b.0.clone(), b.1.clone()));
                proof {
                    let dv = branches.deep_view();
                    assert(new_entries.deep_view() =~= prev.push(fb(dv[i as int])));
                    assert(new_entries.deep_view() =~= dv.take(i + 1).map_values(fb));
                }
                i += 1;
            }
            let mut k: usize = 0;
            while k < courses.len()
                invariant
                    k <= courses.len(),
                    new_entries.deep_view() =~= branches.deep_view().map_values(fb)
                        + courses.deep_view().take(k as int).map_values(fc),
                decreases courses.len() - k,
            {
                let ghost prev = new_entries.deep_view();
                let c = &courses[k];
                new_entries.push(QueueEntry::CourseLeaf(c.url.clone(), c.path.clone()));
                proof {
                    let dv = courses.deep_view();
                    assert(new_entries.deep_view() =~= prev.push(fc(dv[k as int])));
                    assert(new_entries.deep_view() =~= branches.deep_view().map_values(fb)
                        + dv.take(k + 1).map_values(fc));
                }
                k += 1;
            }
            proof {
                let dvb = branches.deep_view();
                let dvc = courses.deep_view();
                assert(dvb.take(dvb.len() as int) =~= dvb);
                assert(dvc.take(dvc.len() as int) =~= dvc);
            }
            HandlerOutcome { new_entries, course: None, small_group: None }
        },
        Extraction::CourseData { course, group_links } => {
            let ghost fg = |g: (Seq<char>, Seq<Seq<char>>)| QueueEntryView::SmallGroupLeaf(
                g.0,
                g.1,
            );
            let mut new_entries: Vec<QueueEntry> = Vec::new();
            let mut i: usize = 0;
            while i < group_links.len()
                invariant
                    i <= group_links.len(),
                    new_entries.deep_view() =~= group_links.deep_view().take(i as int).map_values(
                        fg,
                    ),
                decreases group_links.len() - i,
            {
                let ghost prev = new_entries.deep_view();
                let g = &group_links[i];
                new_entries.push(QueueEntry::SmallGroupLeaf(g.0.clone(), g.1.clone()));
                proof {
                    let dv = group_links.deep_view();
                    assert(new_entries.deep_view() =~= prev.push(fg(dv[i as int])));
                    assert(new_entries.deep_view() =~= dv.take(i + 1).map_values(fg));
                }
                i += 1;
            }
            proof {
                let dv = group_links.deep_view();
                assert(dv.take(dv.len() as int) =~= dv);
            }
            HandlerOutcome { new_entries, course: Some(course), small_group: None }
        },
        Extraction::GroupData(sg) => {
            let new_entries: Vec<QueueEntry> = Vec::new();
            proof {
                assert(new_entries.deep_view() =~= Seq::<QueueEntryView>::empty());
            }
            HandlerOutcome { new_entries, course: None, small_group: Some(sg) }
        },
    }
}

} // verus!
