use vstd::prelude::*;
use vstd::multiset::Multiset;
use crate::path::Path;

verus! {

// ---------------------------------------------------------------------------
// Queue entries
// ---------------------------------------------------------------------------

/// One pending crawl task: the bootstrap page, a branch page to expand, a
/// course page to parse, or a small-group page to parse.
#[derive(Debug, PartialEq)]
pub enum QueueEntry {
    Main,
    Tree(String, Path),
    CourseLeaf(String, Path),
    SmallGroupLeaf(String, Path),
}

pub enum QueueEntryView {
    Main,
    Tree(Seq<char>, Seq<Seq<char>>),
    CourseLeaf(Seq<char>, Seq<Seq<char>>),
    SmallGroupLeaf(Seq<char>, Seq<Seq<char>>),
}

impl View for QueueEntry {
    type V = QueueEntryView;

    open spec fn view(&self) -> QueueEntryView {
        match self {
            QueueEntry::Main => QueueEntryView::Main,
            QueueEntry::Tree(url, path) => QueueEntryView::Tree(url@, path@),
            QueueEntry::CourseLeaf(url, path) => QueueEntryView::CourseLeaf(url@, path@),
            QueueEntry::SmallGroupLeaf(url, path) => QueueEntryView::SmallGroupLeaf(url@, path@),
        }
    }
}

impl DeepView for QueueEntry {
    type V = QueueEntryView;

    open spec fn deep_view(&self) -> QueueEntryView {
        self.view()
    }
}

/// Course and small-group pages are leaves; the bootstrap page and branch
/// pages count as tree work.
pub open spec fn is_leaf_entry(e: QueueEntryView) -> bool {
    e is CourseLeaf || e is SmallGroupLeaf
}

/// How many of the entries are leaves.
pub open spec fn leaf_count(s: Seq<QueueEntryView>) -> nat {
    s.filter(|e: QueueEntryView| is_leaf_entry(e)).len()
}

/// How many of the entries are tree work.
pub open spec fn tree_count(s: Seq<QueueEntryView>) -> nat {
    s.filter(|e: QueueEntryView| !is_leaf_entry(e)).len()
}

// ---------------------------------------------------------------------------
// The work queue
// ---------------------------------------------------------------------------

/// The pending crawl tasks, with cumulative per-category counters kept for
/// progress observability. `pop` removes a uniformly random pending entry so
/// fetch effort spreads over the whole frontier instead of one subtree.
pub struct Queue {
    pub entries: Vec<QueueEntry>,
    pub tree_pushed: u64,
    pub leaf_pushed: u64,
    pub tree_popped: u64,
    pub leaf_popped: u64,
}

impl View for Queue {
    type V = Seq<QueueEntryView>;

    open spec fn view(&self) -> Seq<QueueEntryView> {
        self.entries.deep_view()
    }
}

impl Queue {
    /// The counters agree with the pending entries: what was pushed and not
    /// yet popped is exactly what is pending, category by category.
    pub open spec fn wf(&self) -> bool {
        &&& self.tree_popped <= self.tree_pushed
        &&& self.leaf_popped <= self.leaf_pushed
        &&& self.tree_pushed - self.tree_popped == tree_count(self@)
        &&& self.leaf_pushed - self.leaf_popped == leaf_count(self@)
    }

    /// An empty queue.
    pub fn new() -> (q: Self)
        ensures
            q.wf(),
            q@ == Seq::<QueueEntryView>::empty(),
            q.tree_pushed == 0,
            q.leaf_pushed == 0,
            q.tree_popped == 0,
            q.leaf_popped == 0,
    {
        let q = Queue {
            entries: Vec::new(),
            tree_pushed: 0,
            leaf_pushed: 0,
            tree_popped: 0,
            leaf_popped: 0,
        };
        proof {
            reveal_with_fuel(Seq::<QueueEntryView>::filter, 1);
            assert(q@ =~= Seq::<QueueEntryView>::empty());
        }
        q
    }

    /// How many entries are pending.
    pub fn len(&self) -> (n: usize)
        ensures
            n == self@.len(),
    {
        self.entries.len()
    }

    /// Appends an entry and bumps the matching pushed counter.
    #[verifier::loop_isolation(false)]
    pub fn push_back(&mut self, entry: QueueEntry)
        requires
            old(self).wf(),
            old(self).tree_pushed < u64::MAX,
            old(self).leaf_pushed < u64::MAX,
        ensures
            final(self).wf(),
            final(self)@ == old(self)@.push(entry@),
            is_leaf_entry(entry@) ==> final(self).leaf_pushed == old(self).leaf_pushed + 1
                && final(self).tree_pushed == old(self).tree_pushed,
            !is_leaf_entry(entry@) ==> final(self).tree_pushed == old(self).tree_pushed + 1
                && final(self).leaf_pushed == old(self).leaf_pushed,
            final(self).tree_popped == old(self).tree_popped,
            final(self).leaf_popped == old(self).leaf_popped,
    {
        broadcast use vstd::prelude::Seq::filter_distributes_over_add;

        let is_leaf = match &entry {
            QueueEntry::CourseLeaf(_, _) | QueueEntry::SmallGroupLeaf(_, _) => true,
            _ => false,
        };
        let ghost prev = self@;
        let ghost e = entry@;
        if is_leaf {
            self.leaf_pushed = self.leaf_pushed + 1;
        } else {
            self.tree_pushed = self.tree_pushed + 1;
        }
        self.entries.push(entry);
        proof {
            reveal_with_fuel(Seq::<QueueEntryView>::filter, 2);
            assert(self@ =~= prev.push(e));
            assert(prev.push(e) =~= prev + seq![e]);
            let leaf_pred = |x: QueueEntryView| is_leaf_entry(x);
            let tree_pred = |x: QueueEntryView| !is_leaf_entry(x);
            assert(seq![e].drop_last() =~= Seq::<QueueEntryView>::empty());
            assert((prev + seq![e]).filter(leaf_pred) == prev.filter(leaf_pred) + seq![e].filter(
                leaf_pred,
            ));
            assert((prev + seq![e]).filter(tree_pred) == prev.filter(tree_pred) + seq![e].filter(
                tree_pred,
            ));
        }
    }

    /// Removes and returns the pending entry at a chosen position, bumping
    /// the matching popped counter: the deterministic selection that the
    /// randomized `pop` draws its position for, and that a reproducible
    /// traversal can call directly.
    pub fn pop_at(&mut self, idx: usize) -> (e: QueueEntry)
        requires
            old(self).wf(),
            idx < old(self)@.len(),
        ensures
            final(self).wf(),
            e@ == old(self)@[idx as int],
            final(self)@ == old(self)@.remove(idx as int),
            final(self)@.to_multiset() == old(self)@.to_multiset().remove(e@),
            old(self)@.to_multiset().contains(e@),
    {
        let ghost prev = self@;
        let entry = self.entries.remove(idx);
        let ghost e = entry@;
        proof {
            assert(self@ =~= prev.remove(idx as int));
            assert(e == prev[idx as int]);
            lemma_remove_counts(prev, idx as int);
            prev.to_multiset_ensures();
        }
        let is_leaf = match &entry {
            QueueEntry::CourseLeaf(_, _) | QueueEntry::SmallGroupLeaf(_, _) => true,
            _ => false,
        };
        if is_leaf {
            self.leaf_popped = self.leaf_popped + 1;
        } else {
            self.tree_popped = self.tree_popped + 1;
        }
        entry
    }

    /// Removes and returns one uniformly random pending entry, bumping the
    /// matching popped counter; `None` exactly when nothing is pending.
    pub fn pop(&mut self) -> (r: Option<QueueEntry>)
        requires
            old(self).wf(),
        ensures
            final(self).wf(),
            match r {
                None => old(self)@.len() == 0 && *final(self) == *old(self),
                Some(e) => {
                    &&& old(self)@.len() > 0
                    &&& exists|i: int|
                        0 <= i < old(self)@.len() && e@ == old(self)@[i] && final(self)@ == old(
                            self,
                        )@.remove(i)
                    &&& final(self)@.to_multiset() == old(self)@.to_multiset().remove(e@)
                    &&& old(self)@.to_multiset().contains(e@)
                    &&& final(self)@.len() == old(self)@.len() - 1
                },
            },
    {
        let n = self.entries.len();
        if n == 0 {
            proof {
                assert(self@ =~= old(self)@);
            }
            return None;
        }
        let idx = pick_index(n);
        Some(self.pop_at(idx))
    }
}

/// Removing an entry lowers its category's count by one and leaves the other
/// category's count unchanged.
proof fn lemma_remove_counts(s: Seq<QueueEntryView>, i: int)
    requires
        0 <= i < s.len(),
    ensures
        is_leaf_entry(s[i]) ==> leaf_count(s.remove(i)) == leaf_count(s) - 1 && tree_count(
            s.remove(i),
        ) == tree_count(s),
        !is_leaf_entry(s[i]) ==> tree_count(s.remove(i)) == tree_count(s) - 1 && leaf_count(
            s.remove(i),
        ) == leaf_count(s),
{
    broadcast use vstd::prelude::Seq::filter_distributes_over_add;

    reveal_with_fuel(Seq::<QueueEntryView>::filter, 2);
    let leaf_pred = |x: QueueEntryView| is_leaf_entry(x);
    let tree_pred = |x: QueueEntryView| !is_leaf_entry(x);
    let head = s.take(i);
    let mid = seq![s[i]];
    let tail = s.skip(i + 1);
    assert(s =~= head + (mid + tail));
    assert(s.remove(i) =~= head + tail);
    assert(mid.drop_last() =~= Seq::<QueueEntryView>::empty());
    assert((head + (mid + tail)).filter(leaf_pred) == head.filter(leaf_pred) + (mid
        + tail).filter(leaf_pred));
    assert((mid + tail).filter(leaf_pred) == mid.filter(leaf_pred) + tail.filter(leaf_pred));
    assert((head + tail).filter(leaf_pred) == head.filter(leaf_pred) + tail.filter(leaf_pred));
    assert((head + (mid + tail)).filter(tree_pred) == head.filter(tree_pred) + (mid
        + tail).filter(tree_pred));
    assert((mid + tail).filter(tree_pred) == mid.filter(tree_pred) + tail.filter(tree_pred));
    assert((head + tail).filter(tree_pred) == head.filter(tree_pred) + tail.filter(tree_pred));
}

/// Relies on rand's `thread_rng` and `Rng::gen_range`: a sample from the
/// non-empty range `0..len` lies in that range.
#[verifier::external_body]
fn pick_index(len: usize) -> (r: usize)
    requires
        len > 0,
    ensures
        r < len,
{
    rand::Rng::gen_range(&mut rand::thread_rng(), 0..len)
}

// ---------------------------------------------------------------------------
// Push/pop permutation law
// ---------------------------------------------------------------------------

/// A possible pop history: each popped entry was pending when it was popped,
/// and popping removed exactly that entry. `pop`'s contract makes every run
/// of successful pops such a history over the queue's multiset of entries.
pub open spec fn pop_trace(start: Multiset<QueueEntryView>, popped: Seq<QueueEntryView>) -> bool
    decreases popped.len(),
{
    if popped.len() == 0 {
        true
    } else {
        start.contains(popped[0]) && pop_trace(start.remove(popped[0]), popped.skip(1))
    }
}

/// Any sequence of pushes followed by as many pops, with no pushes in
/// between, returns every pushed entry exactly once: the pops are a
/// permutation of the pushes, and the queue ends empty.
pub proof fn lemma_pop_trace_permutation(
    start: Multiset<QueueEntryView>,
    popped: Seq<QueueEntryView>,
)
    requires
        pop_trace(start, popped),
        popped.len() == start.len(),
    ensures
        popped.to_multiset() == start,
    decreases popped.len(),
{
    broadcast use vstd::multiset::group_multiset_axioms;

    popped.to_multiset_ensures();
    if popped.len() == 0 {
        assert(popped.to_multiset() =~= start);
    } else {
        let p0 = popped[0];
        let rest = popped.skip(1);
        assert(rest =~= popped.remove(0));
        lemma_pop_trace_permutation(start.remove(p0), rest);
        assert(rest.to_multiset() == popped.to_multiset().remove(p0));
        assert(popped.to_multiset().contains(p0)) by {
            assert(popped.contains(p0));
        }
        assert forall|x: QueueEntryView| popped.to_multiset().count(x) == start.count(x) by {
            let pm = popped.to_multiset();
            assert(pm.remove(p0).count(x) == start.remove(p0).count(x));
            if x == p0 {
                assert(pm.count(p0) >= 1);
                assert(start.count(p0) >= 1);
            }
        }
        assert(popped.to_multiset() =~= start);
    }
}

} // verus!
