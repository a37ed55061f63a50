//! Hierarchical names.

use vstd::prelude::*;

verus! {

/// The identifier that anchors a path at the top of the document.
pub open spec fn root_anchor() -> Seq<char> {
    "crate"@
}

/// An ordered sequence of identifiers, outermost first. Two paths are the
/// same name exactly when their segments agree, in order.
#[derive(Debug, PartialEq, Eq, Hash)]
pub struct Path {
    pub segments: Vec<String>,
}

impl View for Path {
    type V = Seq<Seq<char>>;

    open spec fn view(&self) -> Seq<Seq<char>> {
        Seq::new(self.segments@.len(), |i: int| self.segments@[i]@)
    }
}

impl Clone for Path {
    fn clone(&self) -> (res: Self)
        ensures
            res@ == self@,
    {
        let segments = self.segments.clone();
        assert(segments@ =~= self.segments@);
        Path { segments }
    }
}

impl Path {
    /// The path of the top-level container: the root anchor alone.
    pub fn root() -> (res: Path)
        ensures
            res@ == seq![root_anchor()],
    {
        let mut segments: Vec<String> = Vec::new();
        segments.push("crate".to_owned());
        let res = Path { segments };
        assert(res@ =~= seq![root_anchor()]);
        res
    }

    /// The path of `ident` directly inside `self`.
    pub fn child(&self, ident: &String) -> (res: Path)
        ensures
            res@ == self@.push(ident@),
    {
        let mut res = self.clone();
        res.segments.push(ident.clone());
        assert(res@ =~= self@.push(ident@));
        res
    }

    /// Whether both paths are the same name.
    pub fn same_as(&self, other: &Path) -> (res: bool)
        ensures
            res == (self@ == other@),
    {
        if self.segments.len() != other.segments.len() {
            assert(self@.len() != other@.len());
            return false;
        }
        let mut i: usize = 0;
        while i < self.segments.len()
            invariant
                self.segments@.len() == other.segments@.len(),
                i <= self.segments@.len(),
                forall|j: int| 0 <= j < i ==> self@[j] == other@[j],
            decreases self.segments@.len() - i,
        {
            if self.segments[i] != other.segments[i] {
                assert(self@[i as int] != other@[i as int]);
                return false;
            }
            i += 1;
        }
        assert(self@ =~= other@);
        true
    }
}

} // verus!
