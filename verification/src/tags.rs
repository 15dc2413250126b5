//! Sets of tag identifiers, kept in ascending order without repeats.

use vstd::prelude::*;
use crate::text::{lemma_seq_lt_irreflexive, lemma_seq_lt_total, lemma_seq_lt_transitive, owned, seq_lt, str_eq, str_less};

verus! {

/// Whether every element of `s` comes strictly before every later one.
pub open spec fn strictly_ascending(s: Seq<Seq<char>>) -> bool {
    forall|i: int, j: int| 0 <= i < j < s.len() ==> seq_lt(#[trigger] s[i], #[trigger] s[j])
}

proof fn lemma_push_to_set(s: Seq<Seq<char>>, x: Seq<char>)
    ensures
        s.push(x).to_set() == s.to_set().insert(x),
{
    assert forall|y: Seq<char>| s.push(x).to_set().contains(y) implies s.to_set().insert(x).contains(y) by {
        let k = choose|k: int| 0 <= k < s.push(x).len() && s.push(x)[k] == y;
        if k < s.len() {
            assert(s[k] == y);
        }
    }
    assert forall|y: Seq<char>| s.to_set().insert(x).contains(y) implies s.push(x).to_set().contains(y) by {
        if y == x {
            assert(s.push(x)[s.len() as int] == y);
        } else {
            let k = choose|k: int| 0 <= k < s.len() && s[k] == y;
            assert(s.push(x)[k] == y);
        }
    }
    assert(s.push(x).to_set() =~= s.to_set().insert(x));
}

/// Two ascending lists without repeats that hold the same identifiers are
/// the same list.
pub proof fn lemma_ascending_unique(a: Seq<Seq<char>>, b: Seq<Seq<char>>)
    requires
        strictly_ascending(a),
        strictly_ascending(b),
        a.to_set() == b.to_set(),
    ensures
        a == b,
    decreases a.len(),
{
    if a.len() == 0 {
        if b.len() > 0 {
            assert(b.to_set().contains(b[0]));
        }
        assert(a =~= b);
    } else if b.len() == 0 {
        assert(a.to_set().contains(a[0]));
    } else {
        assert(a.to_set().contains(a[0]));
        assert(b.to_set().contains(b[0]));
        if a[0] != b[0] {
            let j = choose|j: int| 0 <= j < b.len() && b[j] == a[0];
            let k = choose|k: int| 0 <= k < a.len() && a[k] == b[0];
            assert(seq_lt(b[0], b[j]));
            assert(seq_lt(a[0], a[k]));
            lemma_seq_lt_transitive(a[0], b[0], a[0]);
            lemma_seq_lt_irreflexive(a[0]);
        }
        let ta = a.drop_first();
        let tb = b.drop_first();
        assert forall|x: Seq<char>| ta.to_set().contains(x) <==> tb.to_set().contains(x) by {
            if ta.to_set().contains(x) {
                let i = choose|i: int| 0 <= i < ta.len() && ta[i] == x;
                assert(a[i + 1] == x);
                assert(seq_lt(a[0], x));
                lemma_seq_lt_irreflexive(x);
                assert(b.to_set().contains(x));
                let j = choose|j: int| 0 <= j < b.len() && b[j] == x;
                assert(j != 0);
                assert(tb[j - 1] == x);
            }
            if tb.to_set().contains(x) {
                let i = choose|i: int| 0 <= i < tb.len() && tb[i] == x;
                assert(b[i + 1] == x);
                assert(seq_lt(b[0], x));
                lemma_seq_lt_irreflexive(x);
                assert(a.to_set().contains(x));
                let j = choose|j: int| 0 <= j < a.len() && a[j] == x;
                assert(j != 0);
                assert(ta[j - 1] == x);
            }
        }
        assert(ta.to_set() =~= tb.to_set());
        assert forall|i: int, j: int| 0 <= i < j < ta.len() implies seq_lt(#[trigger] ta[i], #[trigger] ta[j]) by {
            assert(a[i + 1] == ta[i] && a[j + 1] == ta[j]);
        }
        assert forall|i: int, j: int| 0 <= i < j < tb.len() implies seq_lt(#[trigger] tb[i], #[trigger] tb[j]) by {
            assert(b[i + 1] == tb[i] && b[j + 1] == tb[j]);
        }
        lemma_ascending_unique(ta, tb);
        assert(a =~= seq![a[0]] + ta);
        assert(b =~= seq![b[0]] + tb);
    }
}

/// Adding an identifier to an ascending list without repeats gives another
/// such list, holding one identifier more.
pub proof fn lemma_ascending_insert(l: Seq<Seq<char>>, y: Seq<char>) -> (w: Seq<Seq<char>>)
    requires
        strictly_ascending(l),
    ensures
        strictly_ascending(w),
        w.to_set() == l.to_set().insert(y),
    decreases l.len(),
{
    if l.len() == 0 {
        let w = seq![y];
        assert(w =~= l.push(y));
        lemma_push_to_set(l, y);
        w
    } else {
        lemma_seq_lt_total(y, l[0]);
        if y == l[0] {
            assert(l.to_set().insert(y) =~= l.to_set()) by {
                assert(l.to_set().contains(l[0]));
            }
            l
        } else if seq_lt(y, l[0]) {
            let w = seq![y] + l;
            assert forall|a: int, b: int| 0 <= a < b < w.len() implies seq_lt(#[trigger] w[a], #[trigger] w[b]) by {
                if a == 0 {
                    assert(w[b] == l[b - 1]);
                    if b > 1 {
                        lemma_seq_lt_transitive(y, l[0], l[b - 1]);
                    }
                } else {
                    assert(w[a] == l[a - 1] && w[b] == l[b - 1]);
                }
            }
            assert forall|z: Seq<char>| w.to_set().contains(z) <==> l.to_set().insert(y).contains(z) by {
                if w.to_set().contains(z) {
                    let k = choose|k: int| 0 <= k < w.len() && w[k] == z;
                    if k > 0 {
                        assert(l[k - 1] == z);
                    }
                }
                if l.to_set().contains(z) {
                    let k = choose|k: int| 0 <= k < l.len() && l[k] == z;
                    assert(w[k + 1] == z);
                }
                if z == y {
                    assert(w[0] == z);
                }
            }
            assert(w.to_set() =~= l.to_set().insert(y));
            w
        } else {
            let t = l.skip(1);
            assert forall|a: int, b: int| 0 <= a < b < t.len() implies seq_lt(#[trigger] t[a], #[trigger] t[b]) by {
                assert(t[a] == l[a + 1] && t[b] == l[b + 1]);
            }
            let wt = lemma_ascending_insert(t, y);
            let w = seq![l[0]] + wt;
            assert forall|a: int, b: int| 0 <= a < b < w.len() implies seq_lt(#[trigger] w[a], #[trigger] w[b]) by {
                if a == 0 {
                    assert(w[b] == wt[b - 1]);
                    assert(wt.to_set().contains(wt[b - 1]));
                    if wt[b - 1] != y {
                        assert(t.to_set().contains(wt[b - 1]));
                        let k = choose|k: int| 0 <= k < t.len() && t[k] == wt[b - 1];
                        assert(l[k + 1] == wt[b - 1]);
                    }
                } else {
                    assert(w[a] == wt[a - 1] && w[b] == wt[b - 1]);
                }
            }
            assert forall|z: Seq<char>| w.to_set().contains(z) <==> l.to_set().insert(y).contains(z) by {
                if w.to_set().contains(z) {
                    let k = choose|k: int| 0 <= k < w.len() && w[k] == z;
                    if k > 0 {
                        assert(wt[k - 1] == z);
                        assert(wt.to_set().contains(z));
                        if z != y {
                            assert(t.to_set().contains(z));
                            let m = choose|m: int| 0 <= m < t.len() && t[m] == z;
                            assert(l[m + 1] == z);
                        }
                    }
                }
                if l.to_set().contains(z) {
                    let k = choose|k: int| 0 <= k < l.len() && l[k] == z;
                    if k == 0 {
                        assert(w[0] == z);
                    } else {
                        assert(t[k - 1] == z);
                        assert(t.to_set().contains(z));
                        assert(wt.to_set().contains(z));
                        let m = choose|m: int| 0 <= m < wt.len() && wt[m] == z;
                        assert(w[m + 1] == z);
                    }
                }
                if z == y {
                    assert(wt.to_set().contains(z));
                    let m = choose|m: int| 0 <= m < wt.len() && wt[m] == z;
                    assert(w[m + 1] == z);
                }
            }
            assert(w.to_set() =~= l.to_set().insert(y));
            w
        }
    }
}

/// The ascending list without repeats of the identifiers of `s`.
pub open spec fn ascending_list(s: Set<Seq<char>>) -> Seq<Seq<char>> {
    choose|l: Seq<Seq<char>>| strictly_ascending(l) && l.to_set() == s
}

/// A list that is ascending without repeats is the ascending list of its set.
pub proof fn lemma_is_ascending_list(l: Seq<Seq<char>>)
    requires
        strictly_ascending(l),
    ensures
        ascending_list(l.to_set()) == l,
{
    let c = ascending_list(l.to_set());
    assert(strictly_ascending(c) && c.to_set() == l.to_set());
    lemma_ascending_unique(c, l);
}

/// A set of tag identifiers, listed in ascending order.
#[derive(Debug)]
pub struct TagSet {
    ids: Vec<String>,
}

impl View for TagSet {
    type V = Seq<Seq<char>>;

    /// The identifiers in ascending order.
    closed spec fn view(&self) -> Seq<Seq<char>> {
        self.ids@.map_values(|s: String| s@)
    }
}

impl TagSet {
    #[verifier::type_invariant]
    spec fn ascending(self) -> bool {
        strictly_ascending(self.ids@.map_values(|s: String| s@))
    }

    /// The empty set.
    pub fn new() -> (s: Self)
        ensures
            s@ == Seq::<Seq<char>>::empty(),
            strictly_ascending(s@),
    {
        let s = TagSet { ids: Vec::new() };
        assert(s@ =~= Seq::<Seq<char>>::empty());
        s
    }

    /// The number of identifiers.
    pub fn len(&self) -> (n: usize)
        ensures
            n == self@.len(),
    {
        self.ids.len()
    }

    /// Whether the set is empty.
    pub fn is_empty(&self) -> (b: bool)
        ensures
            b == (self@.len() == 0),
    {
        self.ids.len() == 0
    }

    /// The identifier at position `i` of the ascending order.
    pub fn get(&self, i: usize) -> (s: &str)
        requires
            i < self@.len(),
        ensures
            s@ == self@[i as int],
    {
        self.ids[i].as_str()
    }

    /// Where `id` is or would go: the number of identifiers before it.
    fn position(&self, id: &str) -> (r: (usize, bool))
        ensures
            r.0 <= self@.len(),
            forall|k: int| 0 <= k < r.0 ==> seq_lt(self@[k], id@),
            r.1 ==> r.0 < self@.len() && self@[r.0 as int] == id@,
            !r.1 ==> r.0 == self@.len() || seq_lt(id@, self@[r.0 as int]),
    {
        let ghost v = self@;
        let mut i: usize = 0;
        while i < self.ids.len()
            invariant
                v == self@,
                v == self.ids@.map_values(|s: String| s@),
                i <= self.ids.len(),
                forall|k: int| 0 <= k < i ==> seq_lt(v[k], id@),
            decreases self.ids.len() - i,
        {
            assert(v[i as int] == self.ids@[i as int]@);
            if !str_less(self.ids[i].as_str(), id) {
                proof {
                    lemma_seq_lt_total(v[i as int], id@);
                }
                let same = str_eq(self.ids[i].as_str(), id);
                return (i, same);
            }
            i = i + 1;
        }
        (i, false)
    }

    /// Whether `id` is in the set.
    pub fn contains(&self, id: &str) -> (b: bool)
        ensures
            b == self@.contains(id@),
    {
        proof {
            use_type_invariant(self);
        }
        let (i, found) = self.position(id);
        proof {
            if !found && self@.contains(id@) {
                let k = choose|k: int| 0 <= k < self@.len() && self@[k] == id@;
                lemma_seq_lt_irreflexive(id@);
                if k > i {
                    lemma_seq_lt_transitive(id@, self@[i as int], self@[k]);
                }
            }
        }
        found
    }

    /// Adds `id`; returns whether it was new.
    pub fn insert(&mut self, id: String) -> (added: bool)
        ensures
            added == !old(self)@.contains(id@),
            final(self)@.to_set() == old(self)@.to_set().insert(id@),
            strictly_ascending(final(self)@),
    {
        proof {
            use_type_invariant(&*self);
        }
        let ghost v = self@;
        let (i, found) = self.position(id.as_str());
        if found {
            proof {
                assert(v.contains(id@));
                assert(v.to_set().insert(id@) =~= v.to_set());
            }
            return false;
        }
        proof {
            if v.contains(id@) {
                let k = choose|k: int| 0 <= k < v.len() && v[k] == id@;
                lemma_seq_lt_irreflexive(id@);
                if k > i {
                    lemma_seq_lt_transitive(id@, v[i as int], v[k]);
                }
            }
        }
        let ghost id_view = id@;
        let ghost ids_before = self.ids@;
        let ghost w = v.insert(i as int, id_view);
        proof {
            assert(ids_before.insert(i as int, id).map_values(|s: String| s@) =~= w);
            assert forall|a: int, b: int| 0 <= a < b < w.len() implies seq_lt(#[trigger] w[a], #[trigger] w[b]) by {
                if b < i {
                } else if b == i {
                } else if a < i {
                    assert(w[b] == v[b - 1]);
                    if b - 1 == i {
                    } else {
                        lemma_seq_lt_transitive(v[a], v[i as int], v[b - 1]);
                    }
                } else if a == i {
                    assert(w[b] == v[b - 1]);
                    if b - 1 > i {
                        lemma_seq_lt_transitive(id_view, v[i as int], v[b - 1]);
                    }
                } else {
                    assert(w[a] == v[a - 1]);
                    assert(w[b] == v[b - 1]);
                }
            }
        }
        let mut ids = self.ids.clone();
        assert(ids@ =~= ids_before);
        ids.insert(i, id);
        self.ids = ids;
        proof {
            assert(self@ == w);
            assert(w.to_set() =~= v.to_set().insert(id_view)) by {
                assert forall|x: Seq<char>| w.to_set().contains(x) implies v.to_set().insert(id_view).contains(x) by {
                    let k = choose|k: int| 0 <= k < w.len() && w[k] == x;
                    if k < i {
                        assert(v[k] == x);
                    } else if k > i {
                        assert(v[k - 1] == x);
                    }
                }
                assert forall|x: Seq<char>| v.to_set().insert(id_view).contains(x) implies w.to_set().contains(x) by {
                    if x == id_view {
                        assert(w[i as int] == x);
                    } else {
                        let k = choose|k: int| 0 <= k < v.len() && v[k] == x;
                        if k < i {
                            assert(w[k] == x);
                        } else {
                            assert(w[k + 1] == x);
                        }
                    }
                }
            }
        }
        true
    }

    /// Removes `id`; returns whether it was there.
    pub fn remove(&mut self, id: &str) -> (removed: bool)
        ensures
            removed == old(self)@.contains(id@),
            final(self)@.to_set() == old(self)@.to_set().remove(id@),
            strictly_ascending(final(self)@),
    {
        proof {
            use_type_invariant(&*self);
        }
        let ghost v = self@;
        let (i, found) = self.position(id);
        proof {
            if !found && v.contains(id@) {
                let k = choose|k: int| 0 <= k < v.len() && v[k] == id@;
                lemma_seq_lt_irreflexive(id@);
                if k > i {
                    lemma_seq_lt_transitive(id@, v[i as int], v[k]);
                }
            }
        }
        if !found {
            proof {
                assert(v.to_set().remove(id@) =~= v.to_set());
            }
            return false;
        }
        let ghost ids_before = self.ids@;
        let ghost w = v.remove(i as int);
        proof {
            assert(ids_before.remove(i as int).map_values(|s: String| s@) =~= w);
            assert forall|a: int, b: int| 0 <= a < b < w.len() implies seq_lt(#[trigger] w[a], #[trigger] w[b]) by {
                let aa = if a < i { a } else { a + 1 };
                let bb = if b < i { b } else { b + 1 };
                assert(w[a] == v[aa]);
                assert(w[b] == v[bb]);
            }
        }
        let mut ids = self.ids.clone();
        assert(ids@ =~= ids_before);
        let _gone = ids.remove(i);
        self.ids = ids;
        proof {
            assert(self@ == w);
            assert(w.to_set() =~= v.to_set().remove(id@)) by {
                assert forall|x: Seq<char>| w.to_set().contains(x) implies v.to_set().remove(id@).contains(x) by {
                    let k = choose|k: int| 0 <= k < w.len() && w[k] == x;
                    let kk = if k < i { k } else { k + 1 };
                    assert(v[kk] == x);
                    if x == id@ {
                        lemma_seq_lt_irreflexive(id@);
                    }
                }
                assert forall|x: Seq<char>| v.to_set().remove(id@).contains(x) implies w.to_set().contains(x) by {
                    let k = choose|k: int| 0 <= k < v.len() && v[k] == x;
                    if k < i {
                        assert(w[k] == x);
                    } else {
                        assert(k != i);
                        assert(w[k - 1] == x);
                    }
                }
            }
        }
        true
    }

    /// Removes every identifier.
    pub fn clear(&mut self)
        ensures
            final(self)@ == Seq::<Seq<char>>::empty(),
    {
        self.ids = Vec::new();
        assert(self@ =~= Seq::<Seq<char>>::empty());
    }

    /// The set of the identifiers of `tags`.
    pub fn from_tags(tags: &Vec<String>) -> (s: Self)
        ensures
            s@.to_set() == tags@.map_values(|t: String| t@).to_set(),
            strictly_ascending(s@),
    {
        let ghost ts = tags@.map_values(|t: String| t@);
        let mut s = TagSet::new();
        let mut i: usize = 0;
        assert(s@.to_set() =~= ts.take(0).to_set());
        while i < tags.len()
            invariant
                ts == tags@.map_values(|t: String| t@),
                i <= tags.len(),
                s@.to_set() == ts.take(i as int).to_set(),
                strictly_ascending(s@),
            decreases tags.len() - i,
        {
            assert(ts.take(i as int + 1) =~= ts.take(i as int).push(tags@[i as int]@));
            proof {
                lemma_push_to_set(ts.take(i as int), tags@[i as int]@);
            }
            s.insert(owned(tags[i].as_str()));
            i = i + 1;
        }
        assert(ts.take(ts.len() as int) =~= ts);
        s
    }

    /// The identifiers in ascending order, as a list.
    pub fn to_vec(&self) -> (v: Vec<String>)
        ensures
            v@.map_values(|t: String| t@) == self@,
            strictly_ascending(self@),
    {
        proof {
            use_type_invariant(self);
        }
        let mut v: Vec<String> = Vec::new();
        let mut i: usize = 0;
        while i < self.ids.len()
            invariant
                i <= self.ids.len(),
                v@.map_values(|t: String| t@) == self@.take(i as int),
            decreases self.ids.len() - i,
        {
            let ghost before = v@;
            v.push(owned(self.ids[i].as_str()));
            assert(self@[i as int] == self.ids@[i as int]@);
            assert(v@.map_values(|t: String| t@) =~= before.map_values(|t: String| t@).push(self@[i as int]));
            assert(self@.take(i as int + 1) =~= self@.take(i as int).push(self@[i as int]));
            i = i + 1;
        }
        assert(self@.take(self@.len() as int) =~= self@);
        v
    }

    /// A copy of the set.
    pub fn duplicate(&self) -> (s: Self)
        ensures
            s@ == self@,
    {
        proof {
            use_type_invariant(self);
        }
        let v = self.to_vec();
        let s = TagSet { ids: v };
        assert(s@ == self@);
        s
    }
}

} // verus!
