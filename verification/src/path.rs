use vstd::prelude::*;

verus! {

/// Breadcrumb trail: the ordered link-text fragments from the semester root
/// down to a page. Appending is non-destructive: `push` returns a new `Path`.
#[derive(Debug, PartialEq)]
pub struct Path {
    pub fragments: Vec<String>,
}

impl View for Path {
    type V = Seq<Seq<char>>;

    open spec fn view(&self) -> Seq<Seq<char>> {
        self.fragments.deep_view()
    }
}

impl DeepView for Path {
    type V = Seq<Seq<char>>;

    open spec fn deep_view(&self) -> Seq<Seq<char>> {
        self.view()
    }
}

impl Clone for Path {
    fn clone(&self) -> (r: Self)
        ensures
            r@ == self@,
    {
        let fragments = self.fragments.clone();
        proof {
            assert forall|i: int| 0 <= i < fragments@.len() implies fragments@[i]@
                == self.fragments@[i]@ by {
                assert(cloned::<String>(self.fragments@[i], fragments@[i]));
            }
            assert(fragments.deep_view() =~= self.fragments.deep_view());
        }
        Path { fragments }
    }
}

impl Path {
    /// The empty trail.
    pub fn new() -> (r: Self)
        ensures
            r@ == Seq::<Seq<char>>::empty(),
    {
        Path { fragments: Vec::new() }
    }

    /// A copy of this trail with one more fragment at the end.
    pub fn push(&self, fragment: String) -> (r: Self)
        ensures
            r@ == self@.push(fragment@),
    {
        let mut path = self.clone();
        path.fragments.push(fragment);
        proof {
            assert(path.fragments.deep_view() =~= self@.push(fragment@));
        }
        path
    }

    /// How many fragments the trail holds.
    pub fn len(&self) -> (n: usize)
        ensures
            n == self@.len(),
    {
        self.fragments.len()
    }
}

impl Default for Path {
    fn default() -> (r: Self)
        ensures
            r@ == Seq::<Seq<char>>::empty(),
    {
        Path::new()
    }
}

} // verus!
