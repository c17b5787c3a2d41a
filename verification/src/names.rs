//! Sets of names.
use vstd::prelude::*;

use crate::table::Dup;
use crate::text::{add_name, ascending, copy_all, holds, same, str_lt, views, Str};

verus! {

broadcast use crate::text::group_views;

/// A set of names, kept in ascending order.
#[derive(Debug, PartialEq)]
pub struct Names {
    list: Vec<String>,
}

impl View for Names {
    type V = Set<Str>;

    closed spec fn view(&self) -> Set<Str> {
        views(self.list@).to_set()
    }
}

impl Names {
    #[verifier::type_invariant]
    spec fn ordered(self) -> bool {
        ascending(views(self.list@))
    }

    /// A set without names.
    pub fn new() -> (r: Self)
        ensures
            r@ == Set::<Str>::empty(),
    {
        let r = Names { list: Vec::new() };
        assert(r@ =~= Set::<Str>::empty());
        r
    }

    /// The set holds the name.
    pub fn contains(&self, name: &str) -> (r: bool)
        ensures
            r == self@.contains(name@),
    {
        holds(self.list.as_slice(), name)
    }

    /// Put a name in.
    pub fn insert(&mut self, name: String)
        ensures
            final(self)@ == old(self)@.insert(name@),
    {
        proof {
            use_type_invariant(&*self);
        }
        let mut list: Vec<String> = Vec::new();
        std::mem::swap(&mut list, &mut self.list);
        let ghost w = name@;
        add_name(&mut list, name);
        self.list = list;
        proof {
            assert forall|x: Str| #[trigger] self@.contains(x) <==> old(self)@.insert(w).contains(x) by {
                assert(views(self.list@).contains(x) <==> x == w || views(old(self).list@).contains(x));
            }
            assert(self@ =~= old(self)@.insert(w));
        }
    }

    /// Take a name out; tells whether it was there.
    pub fn remove(&mut self, name: &str) -> (r: bool)
        ensures
            final(self)@ == old(self)@.remove(name@),
            r == old(self)@.contains(name@),
    {
        proof {
            use_type_invariant(&*self);
        }
        let mut i: usize = 0;
        let ghost s = views(self.list@);
        while i < self.list.len()
            invariant
                i <= self.list.len(),
                *self == *old(self),
                s == views(self.list@),
                ascending(s),
                forall|k: int| 0 <= k < i ==> #[trigger] s[k] != name@,
            decreases self.list.len() - i,
        {
            if same(self.list[i].as_str(), name) {
                let mut list: Vec<String> = Vec::new();
                std::mem::swap(&mut list, &mut self.list);
                list.remove(i);
                proof {
                    let t = views(list@);
                    assert(t =~= s.remove(i as int));
                    assert forall|a: int, b: int| 0 <= a < b < t.len() implies #[trigger] str_lt(t[a], t[b]) by {
                        let x = if a < i {
                            a
                        } else {
                            a + 1
                        };
                        let y = if b < i {
                            b
                        } else {
                            b + 1
                        };
                        assert(str_lt(s[x], s[y]));
                    }
                    assert(s[i as int] == name@);
                    assert forall|x: Str| #[trigger] t.to_set().contains(x) <==> s.to_set().remove(name@).contains(
                        x,
                    ) by {
                        if t.contains(x) {
                            let k = choose|k: int| 0 <= k < t.len() && t[k] == x;
                            let j = if k < i {
                                k
                            } else {
                                k + 1
                            };
                            assert(s[j] == x);
                            crate::text::lemma_lt_irreflexive(x);
                            if x == name@ {
                                if j < i {
                                    assert(str_lt(s[j], s[i as int]));
                                } else {
                                    assert(str_lt(s[i as int], s[j]));
                                }
                            }
                        }
                        if s.contains(x) && x != name@ {
                            let k = choose|k: int| 0 <= k < s.len() && s[k] == x;
                            let j = if k < i {
                                k
                            } else {
                                k - 1
                            };
                            assert(t[j] == x);
                        }
                    }
                    assert(t.to_set() =~= s.to_set().remove(name@));
                    assert(s.contains(name@));
                }
                self.list = list;
                return true;
            }
            i = i + 1;
        }
        proof {
            assert(!s.contains(name@));
            assert(self@ =~= old(self)@.remove(name@));
        }
        false
    }

    /// Take all names out.
    pub fn clear(&mut self)
        ensures
            final(self)@ == Set::<Str>::empty(),
    {
        self.list = Vec::new();
        assert(self@ =~= Set::<Str>::empty());
    }

    /// The names in ascending order.
    pub fn list(&self) -> (r: Vec<String>)
        ensures
            ascending(views(r@)),
            views(r@).to_set() == self@,
    {
        proof {
            use_type_invariant(self);
        }
        copy_all(self.list.as_slice())
    }
}

impl Dup for Names {
    fn dup(&self) -> (r: Self) {
        proof {
            use_type_invariant(self);
        }
        Names { list: copy_all(self.list.as_slice()) }
    }
}

impl Default for Names {
    fn default() -> (r: Self)
        ensures
            r@ == Set::<Str>::empty(),
    {
        Names::new()
    }
}

} // verus!
