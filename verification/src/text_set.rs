//! A set of texts, kept in order.

use vstd::prelude::*;

use crate::order::{comes_before, precedes, precedes_is_total, precedes_is_transitive};
use crate::text::{same, views};

verus! {

/// A set of texts: each once, in order.
#[derive(Clone, Debug)]
pub struct TextSet {
    pub items: Vec<String>,
}

/// Whether every text comes strictly before the next.
pub open spec fn is_ascending(s: Seq<Seq<char>>) -> bool {
    forall|i: int, j: int| 0 <= i < j < s.len() ==> precedes(#[trigger] s[i], #[trigger] s[j])
}

impl View for TextSet {
    type V = Set<Seq<char>>;

    open spec fn view(&self) -> Set<Seq<char>> {
        views(self.items@).to_set()
    }
}

impl TextSet {
    pub open spec fn wf(self) -> bool {
        is_ascending(views(self.items@))
    }

    /// The set that holds nothing.
    pub fn new() -> (r: Self)
        ensures
            r.wf(),
            r@ == Set::<Seq<char>>::empty(),
    {
        let r = TextSet { items: Vec::new() };
        proof {
            assert(views(r.items@) =~= seq![]);
            assert(r@ =~= Set::<Seq<char>>::empty());
        }
        r
    }

    /// The first place at which a text stands that does not come before
    /// `text`.
    fn place_of(&self, text: &str) -> (at: usize)
        requires
            self.wf(),
        ensures
            at <= self.items@.len(),
            forall|j: int| 0 <= j < at ==> precedes(#[trigger] views(self.items@)[j], text@),
            forall|j: int|
                at <= j < self.items@.len() ==> !precedes(#[trigger] views(self.items@)[j], text@),
    {
        let ghost all = views(self.items@);
        let mut low: usize = 0;
        let mut high: usize = self.items.len();
        while low < high
            invariant
                self.wf(),
                all == views(self.items@),
                low <= high <= self.items.len(),
                forall|j: int| 0 <= j < low ==> precedes(#[trigger] all[j], text@),
                forall|j: int| high <= j < all.len() ==> !precedes(#[trigger] all[j], text@),
            decreases high - low,
        {
            let middle: usize = low + (high - low) / 2;
            let before: bool = comes_before(self.items[middle].as_str(), text);
            proof {
                let m = all[middle as int];
                assert(m == self.items@[middle as int]@);
                if before {
                    assert forall|j: int| 0 <= j < middle + 1 implies precedes(#[trigger] all[j], text@) by {
                        if j < middle {
                            assert(precedes(all[j], all[middle as int]));
                            precedes_is_transitive(all[j], m, text@);
                        }
                    }
                } else {
                    assert forall|j: int| middle <= j < all.len() implies !precedes(
                        #[trigger] all[j],
                        text@,
                    ) by {
                        if j > middle && precedes(all[j], text@) {
                            assert(precedes(all[middle as int], all[j]));
                            precedes_is_transitive(m, all[j], text@);
                        }
                    }
                }
            }
            if before {
                low = middle + 1;
            } else {
                high = middle;
            }
        }
        low
    }

    /// Adds a text, unless it is there.
    pub fn insert(&mut self, text: String)
        requires
            old(self).wf(),
        ensures
            final(self).wf(),
            final(self)@ == old(self)@.insert(text@),
    {
        let at = self.place_of(text.as_str());
        let ghost before = views(self.items@);
        let ghost x = text@;
        if at < self.items.len() && same(self.items[at].as_str(), text.as_str()) {
            proof {
                assert(before[at as int] == x);
                assert(self@.contains(x));
                assert(self@ =~= self@.insert(x));
            }
            return;
        }
        self.items.insert(at, text);
        proof {
            let after = views(self.items@);
            assert(after =~= before.insert(at as int, x));
            assert forall|i: int, j: int| 0 <= i < j < after.len() implies precedes(
                #[trigger] after[i],
                #[trigger] after[j],
            ) by {
                let bi = if i < at { i } else { i - 1 };
                let bj = if j < at { j } else { j - 1 };
                if i != at && j != at {
                    assert(after[i] == before[bi] && after[j] == before[bj]);
                } else if j == at {
                    assert(after[i] == before[i]);
                } else {
                    assert(after[j] == before[j - 1]);
                    precedes_is_total(before[j - 1], x);
                    if before[j - 1] == x {
                        if at < j - 1 {
                            assert(precedes(before[at as int], before[j - 1]));
                        }
                    }
                }
            }
            assert forall|t: Seq<char>| #[trigger] self@.contains(t) <==> old(self)@.insert(x).contains(t) by {
                if after.contains(t) {
                    let i = choose|i: int| 0 <= i < after.len() && after[i] == t;
                    if i != at {
                        assert(before[if i < at { i } else { i - 1 }] == t);
                    }
                }
                if before.contains(t) {
                    let i = choose|i: int| 0 <= i < before.len() && before[i] == t;
                    assert(after[if i < at { i } else { i + 1 }] == t);
                }
                assert(after[at as int] == x);
            }
            assert(self@ =~= old(self)@.insert(x));
        }
    }
}

} // verus!
