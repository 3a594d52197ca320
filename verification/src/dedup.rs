//! The dedup set: the decoded texts already emitted during this run. The
//! decoded text value is the key; the content digest plays no part here.

use vstd::prelude::*;

verus! {

/// Tracks which decoded texts have been emitted. Scoped to one run and
/// discarded at its end.
pub struct DedupSet {
    items: Vec<String>,
}

impl DedupSet {
    /// The set of decoded texts held.
    pub closed spec fn texts(&self) -> Set<Seq<char>> {
        Set::new(
            |t: Seq<char>|
                exists|i: int| 0 <= i < self.items@.len() && self.items@[i]@ == t,
        )
    }

    /// A fresh, empty set.
    pub fn new() -> (r: DedupSet)
        ensures
            r.texts() == Set::<Seq<char>>::empty(),
    {
        let r = DedupSet { items: Vec::new() };
        proof {
            assert(r.texts() =~= Set::<Seq<char>>::empty());
        }
        r
    }

    /// Whether this text was emitted before.
    pub fn contains_text(&self, t: &String) -> (r: bool)
        ensures
            r == self.texts().contains(t@),
    {
        let n = self.items.len();
        let mut i: usize = 0;
        while i < n
            invariant
                n == self.items@.len(),
                0 <= i <= n,
                forall|j: int| 0 <= j < i ==> self.items@[j]@ != t@,
            decreases n - i,
        {
            let item: &String = &self.items[i];
            if item.eq(t) {
                proof {
                    assert(self.items@[i as int]@ == t@);
                }
                return true;
            }
            i += 1;
        }
        assert(!self.texts().contains(t@));
        false
    }

    /// Records a newly emitted text.
    pub fn insert(&mut self, t: String)
        ensures
            final(self).texts() == old(self).texts().insert(t@),
    {
        let ghost tv = t@;
        let ghost n = self.items@.len() as int;
        self.items.push(t);
        proof {
            assert forall|x: Seq<char>| #[trigger] self.texts().contains(x) implies old(
                self,
            ).texts().insert(tv).contains(x) by {
                let i = choose|i: int| 0 <= i < self.items@.len() && self.items@[i]@ == x;
                if i < n {
                    assert(old(self).items@[i]@ == x);
                }
            }
            assert forall|x: Seq<char>| old(self).texts().insert(tv).contains(x) implies #[trigger] self.texts().contains(x) by {
                if x == tv {
                    assert(self.items@[n]@ == x);
                } else {
                    let i = choose|i: int| 0 <= i < old(self).items@.len() && old(
                        self,
                    ).items@[i]@ == x;
                    assert(self.items@[i]@ == x);
                }
            }
            assert(self.texts() =~= old(self).texts().insert(tv));
        }
    }
}

} // verus!
