//! The files a tape is being read from, innermost last: a `Source` of a
//! file that is already open would never end.

use vstd::prelude::*;

verus! {

/// The canonical paths of the files being read, outermost first.
pub struct SourceStack {
    open: Vec<String>,
}

impl View for SourceStack {
    type V = Seq<Seq<char>>;

    closed spec fn view(&self) -> Seq<Seq<char>> {
        self.open@.map_values(|p: String| p@)
    }
}

impl SourceStack {
    /// No file open.
    pub fn new() -> (r: SourceStack)
        ensures
            r@ == Seq::<Seq<char>>::empty(),
    {
        let r = SourceStack { open: Vec::new() };
        assert(r@ =~= Seq::<Seq<char>>::empty());
        r
    }

    /// Opens `path` unless it is already open; returns whether it was
    /// opened (`false` is a `Source` cycle, and changes nothing).
    pub fn enter(&mut self, path: &str) -> (r: bool)
        ensures
            r == !old(self)@.contains(path@),
            r ==> final(self)@ == old(self)@.push(path@),
            !r ==> final(self)@ == old(self)@,
    {
        let ghost v = self@;
        let mut i: usize = 0;
        while i < self.open.len()
            invariant
                i <= self.open@.len(),
                v == self@,
                v == self.open@.map_values(|p: String| p@),
                forall|j: int| 0 <= j < i ==> v[j] != path@,
            decreases self.open@.len() - i,
        {
            if crate::text::str_eq(self.open[i].as_str(), path) {
                assert(v[i as int] == path@);
                return false;
            }
            i += 1;
        }
        assert(!v.contains(path@));
        self.open.push(path.to_string());
        assert(self@ =~= v.push(path@));
        true
    }

    /// Closes the innermost file.
    pub fn leave(&mut self)
        ensures
            final(self)@ == (if old(self)@.len() == 0 { old(self)@ } else { old(self)@.drop_last() }),
    {
        let ghost v = self@;
        if self.open.len() > 0 {
            self.open.pop();
            assert(self@ =~= v.drop_last());
        }
    }
}

} // verus!
