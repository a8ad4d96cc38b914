//! A set of names that lists its members in `String` order.

use vstd::prelude::*;
use crate::sysfs::views;
use crate::text::{chars_eq, chars_lt, chars_of, lemma_lex_irreflexive, lemma_lex_total, lemma_lex_transitive, lex_lt, string_of};

verus! {

/// Whether each name of `s` is below every later one: sorted, no repeats.
pub open spec fn strictly_sorted(s: Seq<Seq<char>>) -> bool {
    forall|i: int, j: int| 0 <= i < j < s.len() ==> lex_lt(#[trigger] s[i], #[trigger] s[j])
}

/// The members of `set` in `String` order.
pub open spec fn listing(set: Set<Seq<char>>) -> Seq<Seq<char>> {
    choose|l: Seq<Seq<char>>| strictly_sorted(l) && l.to_set() == set
}

/// Two sorted listings without repeats of the same members are equal.
pub proof fn lemma_listing_unique(a: Seq<Seq<char>>, b: Seq<Seq<char>>)
    requires
        strictly_sorted(a),
        strictly_sorted(b),
        a.to_set() == b.to_set(),
    ensures
        a == b,
    decreases a.len(),
{
    if a.len() == 0 {
        if b.len() > 0 {
            assert(b.to_set().contains(b[0]));
        }
        assert(a =~= b);
    } else if b.len() == 0 {
        assert(a.to_set().contains(a[0]));
    } else {
        assert(a.to_set().contains(a[0]));
        assert(b.to_set().contains(a[0]));
        let j = choose|j: int| 0 <= j < b.len() && b[j] == a[0];
        assert(a.to_set().contains(b[0]));
        let k = choose|k: int| 0 <= k < a.len() && a[k] == b[0];
        if j > 0 {
            assert(lex_lt(b[0], b[j]));
            if k > 0 {
                assert(lex_lt(a[0], a[k]));
                lemma_lex_total(a[0], b[0]);
            } else {
                lemma_lex_irreflexive(a[0]);
            }
        }
        assert(a[0] == b[0]);
        let a1 = a.drop_first();
        let b1 = b.drop_first();
        assert forall|x: Seq<char>| a1.to_set().contains(x) <==> b1.to_set().contains(x) by {
            if a1.to_set().contains(x) {
                let i = choose|i: int| 0 <= i < a1.len() && a1[i] == x;
                assert(a[i + 1] == x);
                assert(lex_lt(a[0], a[i + 1]));
                assert(b.to_set().contains(x));
                let m = choose|m: int| 0 <= m < b.len() && b[m] == x;
                if m == 0 {
                    lemma_lex_irreflexive(x);
                }
                assert(b1[m - 1] == x);
            }
            if b1.to_set().contains(x) {
                let i = choose|i: int| 0 <= i < b1.len() && b1[i] == x;
                assert(b[i + 1] == x);
                assert(lex_lt(b[0], b[i + 1]));
                assert(a.to_set().contains(x));
                let m = choose|m: int| 0 <= m < a.len() && a[m] == x;
                if m == 0 {
                    lemma_lex_irreflexive(x);
                }
                assert(a1[m - 1] == x);
            }
        }
        assert(a1.to_set() =~= b1.to_set());
        assert(strictly_sorted(a1)) by {
            assert forall|i: int, j: int| 0 <= i < j < a1.len() implies lex_lt(#[trigger] a1[i], #[trigger] a1[j]) by {
                assert(a1[i] == a[i + 1] && a1[j] == a[j + 1]);
            }
        }
        assert(strictly_sorted(b1)) by {
            assert forall|i: int, j: int| 0 <= i < j < b1.len() implies lex_lt(#[trigger] b1[i], #[trigger] b1[j]) by {
                assert(b1[i] == b[i + 1] && b1[j] == b[j + 1]);
            }
        }
        lemma_listing_unique(a1, b1);
        assert(a =~= seq![a[0]] + a1);
        assert(b =~= seq![b[0]] + b1);
    }
}

/// A sorted listing without repeats is the listing of its members.
pub proof fn lemma_is_listing(a: Seq<Seq<char>>)
    requires
        strictly_sorted(a),
    ensures
        listing(a.to_set()) == a,
{
    let l = listing(a.to_set());
    assert(strictly_sorted(a) && a.to_set() == a.to_set());
    lemma_listing_unique(l, a);
}

/// A finite set of names.
pub struct NameSet {
    items: Vec<String>,
}

impl View for NameSet {
    type V = Set<Seq<char>>;

    closed spec fn view(&self) -> Set<Seq<char>> {
        views(self.items@).to_set()
    }
}

impl NameSet {
    #[verifier::type_invariant]
    spec fn sorted_items(self) -> bool {
        strictly_sorted(views(self.items@))
    }

    /// The empty set.
    pub fn new() -> (r: Self)
        ensures
            r@ == Set::<Seq<char>>::empty(),
    {
        let r = NameSet { items: Vec::new() };
        assert(views(r.items@) =~= Seq::<Seq<char>>::empty());
        assert(r@ =~= Set::<Seq<char>>::empty());
        r
    }

    /// Adds `name`.
    pub fn insert(&mut self, name: &str)
        ensures
            final(self)@ == old(self)@.insert(name@),
    {
        proof {
            use_type_invariant(&*self);
        }
        let x = chars_of(name);
        let ghost s = views(self.items@);
        let mut i: usize = 0;
        while i < self.items.len()
            invariant
                i <= self.items@.len(),
                s == views(self.items@),
                x@ == name@,
                forall|j: int| 0 <= j < i ==> lex_lt(#[trigger] s[j], name@),
            ensures
                i <= self.items@.len(),
                forall|j: int| 0 <= j < i ==> lex_lt(#[trigger] s[j], name@),
                i < self.items@.len() ==> !lex_lt(s[i as int], name@),
            decreases self.items@.len() - i,
        {
            let c = chars_of(self.items[i].as_str());
            assert(s[i as int] == c@);
            if !chars_lt(c.as_slice(), x.as_slice()) {
                break;
            }
            i += 1;
        }
        let mut present = false;
        if i < self.items.len() {
            let c = chars_of(self.items[i].as_str());
            assert(s[i as int] == c@);
            present = chars_eq(c.as_slice(), x.as_slice());
        }
        if present {
            assert(s[i as int] == name@);
            assert(self@ =~= old(self)@.insert(name@));
            return;
        }
        assert(i < s.len() ==> s[i as int] != name@);
        // Every member from position `i` on is above `name`.
        proof {
            assert forall|j: int| i <= j < s.len() implies lex_lt(name@, #[trigger] s[j]) by {
                if i < s.len() {
                    assert(s[i as int] == self.items@[i as int]@);
                    lemma_lex_total(name@, s[i as int]);
                    if j > i {
                        assert(lex_lt(s[i as int], s[j]));
                        lemma_lex_transitive(name@, s[i as int], s[j]);
                    }
                }
            }
        }
        let v = string_of(x.as_slice());
        let mut items = Vec::new();
        std::mem::swap(&mut items, &mut self.items);
        items.insert(i, v);
        let ghost t = views(items@);
        proof {
            assert(t =~= s.insert(i as int, name@));
            assert forall|a: int, b: int| 0 <= a < b < t.len() implies lex_lt(#[trigger] t[a], #[trigger] t[b]) by {
                if b < i {
                } else if b == i {
                    assert(t[a] == s[a]);
                } else if a < i {
                    assert(t[b] == s[b - 1]);
                    assert(lex_lt(s[a], name@));
                    if a < i {
                        lemma_lex_transitive(s[a], name@, s[b - 1]);
                    }
                } else if a == i {
                    assert(t[b] == s[b - 1]);
                } else {
                    assert(t[a] == s[a - 1]);
                    assert(t[b] == s[b - 1]);
                }
            }
            assert forall|y: Seq<char>| #[trigger] t.to_set().contains(y) <==> s.to_set().insert(name@).contains(y) by {
                if t.contains(y) {
                    let m = choose|m: int| 0 <= m < t.len() && t[m] == y;
                    if m < i {
                        assert(s[m] == y);
                    } else if m > i {
                        assert(s[m - 1] == y);
                    }
                }
                if s.contains(y) {
                    let m = choose|m: int| 0 <= m < s.len() && s[m] == y;
                    if m < i {
                        assert(t[m] == y);
                    } else {
                        assert(t[m + 1] == y);
                    }
                }
                if y == name@ {
                    assert(t[i as int] == y);
                }
            }
        }
        self.items = items;
        assert(self@ =~= old(self)@.insert(name@));
    }

    /// Whether `name` is a member.
    pub fn contains(&self, name: &str) -> (r: bool)
        ensures
            r == self@.contains(name@),
    {
        let mut i: usize = 0;
        while i < self.items.len()
            invariant
                i <= self.items@.len(),
                forall|j: int| 0 <= j < i ==> self.items@[j]@ != name@,
            decreases self.items@.len() - i,
        {
            if crate::text::str_eq(self.items[i].as_str(), name) {
                assert(views(self.items@)[i as int] == name@);
                return true;
            }
            i += 1;
        }
        assert(!views(self.items@).contains(name@));
        false
    }

    /// The set of `names`.
    pub fn from_names(names: &Vec<String>) -> (r: Self)
        ensures
            r@ == views(names@).to_set(),
    {
        let mut r = NameSet::new();
        let mut i: usize = 0;
        while i < names.len()
            invariant
                i <= names@.len(),
                r@ == views(names@).take(i as int).to_set(),
            decreases names@.len() - i,
        {
            r.insert(names[i].as_str());
            proof {
                let a = views(names@).take(i as int);
                let b = views(names@).take(i + 1);
                assert(b =~= a.push(names@[i as int]@));
                assert forall|x: Seq<char>| #[trigger] b.to_set().contains(x) <==> a.to_set().insert(names@[i as int]@).contains(x) by {
                    if b.contains(x) {
                        let k = choose|k: int| 0 <= k < b.len() && b[k] == x;
                        if k < a.len() {
                            assert(a[k] == x);
                        }
                    }
                    if a.contains(x) {
                        let k = choose|k: int| 0 <= k < a.len() && a[k] == x;
                        assert(b[k] == x);
                    }
                    if x == names@[i as int]@ {
                        assert(b[i as int] == x);
                    }
                }
                assert(b.to_set() =~= a.to_set().insert(names@[i as int]@));
            }
            i += 1;
        }
        assert(views(names@).take(i as int) =~= views(names@));
        r
    }

    /// The members in `String` order.
    pub fn sorted(&self) -> (r: Vec<String>)
        ensures
            views(r@) == listing(self@),
    {
        proof {
            use_type_invariant(self);
            lemma_is_listing(views(self.items@));
        }
        let mut r: Vec<String> = Vec::new();
        let mut i: usize = 0;
        while i < self.items.len()
            invariant
                i <= self.items@.len(),
                views(r@) == views(self.items@).take(i as int),
            decreases self.items@.len() - i,
        {
            let ghost prev = views(r@);
            let c = self.items[i].clone();
            r.push(c);
            assert(views(r@) =~= prev.push(views(self.items@)[i as int]));
            i += 1;
            assert(views(r@) =~= views(self.items@).take(i as int));
        }
        assert(views(self.items@).take(i as int) =~= views(self.items@));
        r
    }
}


/// The members of `values` in `String` order.
pub fn sorted(values: &NameSet) -> (r: Vec<String>)
    ensures
        views(r@) == listing(values@),
{
    values.sorted()
}

} // verus!
