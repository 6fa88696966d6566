//! A set of strings that remembers an order: a new element goes to the end,
//! and removing an element moves the last element into its place.

use vstd::prelude::*;

verus! {

/// The order that the set keeps after adding `x`.
pub open spec fn seq_set_insert(s: Seq<Seq<char>>, x: Seq<char>) -> Seq<Seq<char>> {
    if s.contains(x) {
        s
    } else {
        s.push(x)
    }
}

/// The order that the set keeps after removing `x`: the last element takes
/// the place of the removed one.
pub open spec fn seq_set_remove(s: Seq<Seq<char>>, x: Seq<char>) -> Seq<Seq<char>> {
    if s.contains(x) {
        s.update(s.index_of(x), s.last()).drop_last()
    } else {
        s
    }
}

/// The elements at positions `from`, `from + 1`, ... of `s`, at most `limit`
/// of them.
pub open spec fn seq_page<A>(s: Seq<A>, from: int, limit: int) -> Seq<A> {
    if from >= s.len() {
        Seq::empty()
    } else if from + limit >= s.len() {
        s.subrange(from, s.len() as int)
    } else {
        s.subrange(from, from + limit)
    }
}

/// The views of a sequence of strings.
pub open spec fn strings_view(v: Seq<String>) -> Seq<Seq<char>> {
    v.map_values(|s: String| s@)
}

/// The ordered set that adding the elements of `s` in order builds.
pub open spec fn ordered_set_of(s: Seq<Seq<char>>) -> Seq<Seq<char>>
    decreases s.len(),
{
    if s.len() == 0 {
        Seq::empty()
    } else {
        seq_set_insert(ordered_set_of(s.drop_last()), s.last())
    }
}

/// Building an ordered set from elements gives each element once, and from
/// elements that are already distinct gives them back in the same order.
pub proof fn lemma_ordered_set_of(s: Seq<Seq<char>>)
    ensures
        ordered_set_of(s).no_duplicates(),
        s.no_duplicates() ==> ordered_set_of(s) == s,
    decreases s.len(),
{
    if s.len() > 0 {
        let p = s.drop_last();
        lemma_ordered_set_of(p);
        lemma_seq_set_insert(ordered_set_of(p), s.last());
        if s.no_duplicates() {
            assert(p.no_duplicates());
            assert(!p.contains(s.last())) by {
                if p.contains(s.last()) {
                    let j = choose|j: int| 0 <= j < p.len() && p[j] == s.last();
                    assert(s[j] == s[s.len() - 1]);
                }
            }
            assert(p.push(s.last()) =~= s);
        }
    }
}

/// Adding `x` keeps each element once, adds `x`, keeps every other element,
/// and grows the set by one exactly when `x` was missing.
pub proof fn lemma_seq_set_insert(s: Seq<Seq<char>>, x: Seq<char>)
    requires
        s.no_duplicates(),
    ensures
        seq_set_insert(s, x).no_duplicates(),
        forall|y: Seq<char>| #[trigger] seq_set_insert(s, x).contains(y) <==> (s.contains(y) || y == x),
        seq_set_insert(s, x).len() == if s.contains(x) { s.len() } else { s.len() + 1 },
{
    let r = seq_set_insert(s, x);
    if !s.contains(x) {
        assert forall|y: Seq<char>| #[trigger] r.contains(y) <==> (s.contains(y) || y == x) by {
            if r.contains(y) {
                let i = choose|i: int| 0 <= i < r.len() && r[i] == y;
                if i < s.len() {
                    assert(s[i] == y);
                }
            }
            if s.contains(y) {
                let i = choose|i: int| 0 <= i < s.len() && s[i] == y;
                assert(r[i] == y);
            }
            if y == x {
                assert(r[s.len() as int] == y);
            }
        }
    }
}

/// Removing `x` keeps each element once, drops `x`, keeps every other
/// element, and shrinks the set by one exactly when `x` was there.
pub proof fn lemma_seq_set_remove(s: Seq<Seq<char>>, x: Seq<char>)
    requires
        s.no_duplicates(),
    ensures
        seq_set_remove(s, x).no_duplicates(),
        forall|y: Seq<char>| #[trigger] seq_set_remove(s, x).contains(y) <==> (s.contains(y) && y != x),
        seq_set_remove(s, x).len() == if s.contains(x) { s.len() - 1 } else { s.len() as int },
{
    let r = seq_set_remove(s, x);
    if s.contains(x) {
        let i = s.index_of(x);
        assert(0 <= i < s.len() && s[i] == x);
        let n = s.len();
        assert forall|a: int, b: int| 0 <= a < r.len() && 0 <= b < r.len() && a != b implies r[a] != r[b] by {
            let ia = if a == i { n - 1 } else { a };
            let ib = if b == i { n - 1 } else { b };
            assert(r[a] == s[ia]);
            assert(r[b] == s[ib]);
        }
        assert forall|y: Seq<char>| #[trigger] r.contains(y) <==> (s.contains(y) && y != x) by {
            if r.contains(y) {
                let j = choose|j: int| 0 <= j < r.len() && r[j] == y;
                let jj = if j == i { n - 1 } else { j };
                assert(s[jj] == y);
                assert(jj != i);
            }
            if s.contains(y) && y != x {
                let j = choose|j: int| 0 <= j < s.len() && s[j] == y;
                assert(j != i);
                let jj = if j == n - 1 { i } else { j };
                assert(r[jj] == y);
            }
        }
    }
}

/// Adding an element that was missing, then removing it, gives back the set.
pub proof fn lemma_seq_set_insert_remove(s: Seq<Seq<char>>, x: Seq<char>)
    requires
        s.no_duplicates(),
        !s.contains(x),
    ensures
        seq_set_remove(seq_set_insert(s, x), x) == s,
{
    let p = s.push(x);
    assert(p[s.len() as int] == x);
    assert(p.contains(x));
    lemma_seq_set_insert(s, x);
    let i = p.index_of(x);
    assert(0 <= i < p.len() && p[i] == x);
    if i != s.len() {
        assert(s[i] == x);
    }
    assert(seq_set_remove(p, x) =~= s);
}

pub struct StrSet {
    elems: Vec<String>,
}

impl View for StrSet {
    type V = Seq<Seq<char>>;

    closed spec fn view(&self) -> Seq<Seq<char>> {
        self.elems@.map_values(|s: String| s@)
    }
}

impl StrSet {
    /// No element occurs twice.
    pub open spec fn wf(&self) -> bool {
        self@.no_duplicates()
    }

    pub fn new() -> (set: Self)
        ensures
            set.wf(),
            set@ == Seq::<Seq<char>>::empty(),
    {
        let set = StrSet { elems: Vec::new() };
        assert(set@ =~= Seq::<Seq<char>>::empty());
        set
    }

    /// The set that adding the elements of `v` in order builds.
    pub fn from_vec(v: &Vec<String>) -> (set: Self)
        ensures
            set.wf(),
            set@ == ordered_set_of(strings_view(v@)),
    {
        let mut set = StrSet::new();
        let mut i: usize = 0;
        while i < v.len()
            invariant
                0 <= i <= v@.len(),
                set.wf(),
                set@ == ordered_set_of(strings_view(v@).subrange(0, i as int)),
            decreases v@.len() - i,
        {
            let ghost before = strings_view(v@).subrange(0, i as int);
            set.insert(v[i].clone());
            assert(strings_view(v@).subrange(0, i + 1).drop_last() =~= before);
            i = i + 1;
        }
        assert(strings_view(v@).subrange(0, v@.len() as int) =~= strings_view(v@));
        set
    }

    pub fn len(&self) -> (n: usize)
        ensures
            n == self@.len(),
    {
        self.elems.len()
    }

    pub fn is_empty(&self) -> (b: bool)
        ensures
            b == (self@.len() == 0),
    {
        self.elems.len() == 0
    }

    /// Where `x` stands in the set's order, if it is there.
    pub fn position(&self, x: &String) -> (r: Option<usize>)
        ensures
            match r {
                Some(i) => i < self@.len() && self@[i as int] == x@,
                None => !self@.contains(x@),
            },
    {
        let mut i: usize = 0;
        while i < self.elems.len()
            invariant
                0 <= i <= self.elems@.len(),
                self@.len() == self.elems@.len(),
                forall|j: int| 0 <= j < i ==> self@[j] != x@,
            decreases self.elems@.len() - i,
        {
            if self.elems[i] == *x {
                return Some(i);
            }
            i = i + 1;
        }
        None
    }

    pub fn contains(&self, x: &String) -> (b: bool)
        ensures
            b == self@.contains(x@),
    {
        self.position(x).is_some()
    }

    pub fn insert(&mut self, x: String)
        requires
            old(self).wf(),
        ensures
            final(self).wf(),
            final(self)@ == seq_set_insert(old(self)@, x@),
    {
        if self.position(&x).is_none() {
            let ghost xv = x@;
            self.elems.push(x);
            assert(self@ =~= old(self)@.push(xv));
        }
    }

    pub fn remove(&mut self, x: &String)
        requires
            old(self).wf(),
        ensures
            final(self).wf(),
            final(self)@ == seq_set_remove(old(self)@, x@),
    {
        match self.position(x) {
            Some(i) => {
                let ghost s = old(self)@;
                assert(s.index_of(x@) == i) by {
                    let k = s.index_of(x@);
                    assert(s.contains(x@));
                    assert(0 <= k < s.len() && s[k] == x@);
                }
                self.elems.swap_remove(i);
                assert(self@ =~= s.update(i as int, s.last()).drop_last());
                assert(self@.no_duplicates()) by {
                    assert forall|a: int, b: int|
                        0 <= a < self@.len() && 0 <= b < self@.len() && a != b
                        implies self@[a] != self@[b] by {
                        let ia = if a == i { s.len() - 1 } else { a };
                        let ib = if b == i { s.len() - 1 } else { b };
                        assert(self@[a] == s[ia]);
                        assert(self@[b] == s[ib]);
                    }
                }
            },
            None => {},
        }
    }

    /// The elements in the set's order, cloned.
    pub fn to_vec(&self) -> (v: Vec<String>)
        ensures
            v@.map_values(|s: String| s@) == self@,
    {
        self.page(0, self.elems.len())
    }

    /// At most `limit` elements, starting at position `from`, in the set's order.
    pub fn page(&self, from: usize, limit: usize) -> (v: Vec<String>)
        ensures
            v@.map_values(|s: String| s@) == seq_page(self@, from as int, limit as int),
    {
        let len = self.elems.len();
        let mut out: Vec<String> = Vec::new();
        if from >= len {
            assert(out@.map_values(|s: String| s@) =~= seq_page(self@, from as int, limit as int));
            return out;
        }
        let end: usize = if limit >= len - from { len } else { from + limit };
        let mut i: usize = from;
        while i < end
            invariant
                from <= i <= end <= len,
                len == self.elems@.len(),
                self@.len() == len,
                out@.len() == i - from,
                forall|j: int| 0 <= j < out@.len() ==> out@[j]@ == self@[from + j],
            decreases end - i,
        {
            out.push(self.elems[i].clone());
            i = i + 1;
        }
        assert(out@.map_values(|s: String| s@) =~= seq_page(self@, from as int, limit as int));
        out
    }
}

} // verus!
