//! Sets of identifiers, kept as a sequence in strictly increasing order.

use crate::text::{lemma_text_less_transitive, lemma_text_less_trichotomy, str_less, text_less};
use vstd::prelude::*;

verus! {

/// What a sequence of owned strings says, string by string.
pub open spec fn texts(v: Seq<String>) -> Seq<Seq<char>> {
    Seq::new(v.len(), |i: int| v[i]@)
}

/// Every element is smaller than all that follow it.
pub open spec fn strictly_sorted(q: Seq<Seq<char>>) -> bool {
    forall|i: int, j: int| #![trigger q[i], q[j]] 0 <= i < j < q.len() ==> text_less(q[i], q[j])
}

/// The elements of `s` in increasing order, each once.
pub open spec fn sorted_seq_of(s: Set<Seq<char>>) -> Seq<Seq<char>> {
    choose|q: Seq<Seq<char>>| strictly_sorted(q) && q.to_set() == s
}

/// Two strictly increasing arrangements of one set start with the same
/// element: its least.
proof fn lemma_sorted_heads_agree(a: Seq<Seq<char>>, b: Seq<Seq<char>>)
    requires
        strictly_sorted(a),
        strictly_sorted(b),
        a.to_set() == b.to_set(),
        a.len() > 0,
    ensures
        b.len() > 0,
        a[0] == b[0],
{
    assert(a.to_set().contains(a[0]));
    assert(b.to_set().contains(b[0]));
}

/// Without its first element a strictly increasing sequence stays so, and
/// loses that element only.
proof fn lemma_sorted_tail(a: Seq<Seq<char>>)
    requires
        strictly_sorted(a),
        a.len() > 0,
    ensures
        strictly_sorted(a.drop_first()),
        a.drop_first().to_set() == a.to_set().remove(a[0]),
{
    let t = a.drop_first();
    assert forall|x: Seq<char>| t.to_set().contains(x) <==> a.to_set().remove(a[0]).contains(
        x,
    ) by {
        if a.contains(x) && x != a[0] {
            let i = choose|i: int| 0 <= i < a.len() && a[i] == x;
            assert(t[i - 1] == x);
        }
    }
}

/// A set has at most one strictly increasing arrangement.
pub proof fn lemma_sorted_unique(a: Seq<Seq<char>>, b: Seq<Seq<char>>)
    requires
        strictly_sorted(a),
        strictly_sorted(b),
        a.to_set() == b.to_set(),
    ensures
        a == b,
    decreases a.len(),
{
    if a.len() == 0 {
        if b.len() > 0 {
            lemma_sorted_heads_agree(b, a);
        }
    } else {
        lemma_sorted_heads_agree(a, b);
        lemma_sorted_tail(a);
        lemma_sorted_tail(b);
        lemma_sorted_unique(a.drop_first(), b.drop_first());
        assert(b =~= seq![b[0]] + b.drop_first());
    }
}

/// A strictly increasing sequence is the arrangement of its own elements.
pub proof fn lemma_sorted_seq_of(q: Seq<Seq<char>>)
    requires
        strictly_sorted(q),
    ensures
        sorted_seq_of(q.to_set()) == q,
{
    let r = sorted_seq_of(q.to_set());
    lemma_sorted_unique(r, q);
}

/// Putting `x` between the elements that are smaller and those that are not
/// keeps a sequence strictly increasing, and adds `x` to its elements.
pub proof fn lemma_insert_keeps_sorted(q: Seq<Seq<char>>, p: int, x: Seq<char>)
    requires
        strictly_sorted(q),
        0 <= p <= q.len(),
        forall|i: int| 0 <= i < p ==> text_less(#[trigger] q[i], x),
        forall|i: int| p <= i < q.len() ==> !text_less(#[trigger] q[i], x),
        !q.contains(x),
    ensures
        strictly_sorted(q.insert(p, x)),
        q.insert(p, x).to_set() == q.to_set().insert(x),
{
    let r = q.insert(p, x);
    assert forall|i: int, j: int| 0 <= i < j < r.len() implies text_less(r[i], r[j]) by {
        if i == p {
            lemma_text_less_trichotomy(q[j - 1], x);
        }
    }
    assert forall|y: Seq<char>| r.to_set().contains(y) <==> q.to_set().insert(x).contains(y) by {
        if q.contains(y) {
            let i = choose|i: int| 0 <= i < q.len() && q[i] == y;
            if i < p {
                assert(r[i] == y);
            } else {
                assert(r[i + 1] == y);
            }
        }
        if y == x {
            assert(r[p] == y);
        }
    }
}

/// The number of elements at the front of `q` that are smaller than `x`.
pub open spec fn rank(q: Seq<Seq<char>>, x: Seq<char>) -> int
    decreases q.len(),
{
    if q.len() == 0 {
        0
    } else if text_less(q.last(), x) {
        q.len() as int
    } else {
        rank(q.drop_last(), x)
    }
}

/// In a strictly increasing sequence the elements before the rank of `x`
/// are smaller than `x`, and those from it on are not.
proof fn lemma_rank(q: Seq<Seq<char>>, x: Seq<char>)
    requires
        strictly_sorted(q),
    ensures
        0 <= rank(q, x) <= q.len(),
        forall|i: int| 0 <= i < rank(q, x) ==> text_less(#[trigger] q[i], x),
        forall|i: int| rank(q, x) <= i < q.len() ==> !text_less(#[trigger] q[i], x),
    decreases q.len(),
{
    if q.len() > 0 {
        let init = q.drop_last();
        if text_less(q.last(), x) {
            assert forall|i: int| 0 <= i < q.len() implies text_less(#[trigger] q[i], x) by {
                if i < q.len() - 1 {
                    lemma_text_less_transitive(q[i], q.last(), x);
                }
            }
        } else {
            lemma_rank(init, x);
            assert forall|i: int| rank(q, x) <= i < q.len() implies !text_less(
                #[trigger] q[i],
                x,
            ) by {
                if i < q.len() - 1 {
                    assert(q[i] == init[i]);
                }
            }
            assert forall|i: int| 0 <= i < rank(q, x) implies text_less(#[trigger] q[i], x) by {
                assert(q[i] == init[i]);
            }
        }
    }
}

/// Every finite set has its strictly increasing arrangement.
pub proof fn lemma_sorted_seq_exists(s: Set<Seq<char>>)
    requires
        s.finite(),
    ensures
        strictly_sorted(sorted_seq_of(s)),
        sorted_seq_of(s).to_set() == s,
    decreases s.len(),
{
    if s.len() == 0 {
        let q = Seq::<Seq<char>>::empty();
        assert(strictly_sorted(q) && q.to_set() == s);
    } else {
        let x = s.choose();
        let rest = s.remove(x);
        lemma_sorted_seq_exists(rest);
        let q = sorted_seq_of(rest);
        lemma_rank(q, x);
        assert(!q.contains(x));
        lemma_insert_keeps_sorted(q, rank(q, x), x);
    }
}

/// A finite set of identifiers.
pub struct IdSet {
    ids: Vec<String>,
}

impl View for IdSet {
    type V = Set<Seq<char>>;

    closed spec fn view(&self) -> Set<Seq<char>> {
        texts(self.ids@).to_set()
    }
}

impl IdSet {
    /// The elements are kept in strictly increasing order.
    #[verifier::type_invariant]
    spec fn sorted(&self) -> bool {
        strictly_sorted(texts(self.ids@))
    }

    /// The empty set.
    pub fn new() -> (r: IdSet)
        ensures
            r@ == Set::<Seq<char>>::empty(),
    {
        IdSet { ids: Vec::new() }
    }

    /// The number of elements.
    pub fn len(&self) -> (n: usize)
        ensures
            n == self@.len(),
            self@.finite(),
    {
        proof {
            use_type_invariant(self);
            lemma_sorted_len(texts(self.ids@));
        }
        self.ids.len()
    }

    /// Tells whether the set has no element.
    pub fn is_empty(&self) -> (r: bool)
        ensures
            r == (self@ == Set::<Seq<char>>::empty()),
    {
        proof {
            let q = texts(self.ids@);
            if q.len() > 0 {
                assert(self@.contains(q[0]));
            } else {
                assert(self@ =~= Set::<Seq<char>>::empty());
            }
        }
        self.ids.len() == 0
    }

    /// The first position whose element is not smaller than `id`.
    fn lower_bound(&self, id: &str) -> (p: usize)
        ensures
            p <= self.ids@.len(),
            forall|i: int| 0 <= i < p ==> text_less(#[trigger] texts(self.ids@)[i], id@),
            forall|i: int|
                p <= i < self.ids@.len() ==> !text_less(#[trigger] texts(self.ids@)[i], id@),
    {
        proof {
            use_type_invariant(self);
        }
        let ghost q = texts(self.ids@);
        let mut lo: usize = 0;
        let mut hi: usize = self.ids.len();
        while lo < hi
            invariant
                q == texts(self.ids@),
                strictly_sorted(q),
                lo <= hi <= self.ids@.len(),
                forall|i: int| 0 <= i < lo ==> text_less(#[trigger] q[i], id@),
                forall|i: int| hi <= i < q.len() ==> !text_less(#[trigger] q[i], id@),
            decreases hi - lo,
        {
            let mid = lo + (hi - lo) / 2;
            if str_less(self.ids[mid].as_str(), id) {
                assert forall|i: int| 0 <= i < mid + 1 implies text_less(#[trigger] q[i], id@) by {
                    if i < mid {
                        lemma_text_less_transitive(q[i], q[mid as int], id@);
                    }
                }
                lo = mid + 1;
            } else {
                assert forall|i: int| mid <= i < q.len() implies !text_less(
                    #[trigger] q[i],
                    id@,
                ) by {
                    if i > mid && text_less(q[i], id@) {
                        lemma_text_less_transitive(q[mid as int], q[i], id@);
                    }
                }
                hi = mid;
            }
        }
        lo
    }

    /// Tells whether `id` is an element.
    pub fn contains(&self, id: &str) -> (r: bool)
        ensures
            r == self@.contains(id@),
    {
        proof {
            use_type_invariant(self);
        }
        let p = self.lower_bound(id);
        let ghost q = texts(self.ids@);
        if p < self.ids.len() && !str_less(id, self.ids[p].as_str()) {
            proof {
                lemma_text_less_trichotomy(q[p as int], id@);
            }
            true
        } else {
            proof {
                if q.contains(id@) {
                    let i = choose|i: int| 0 <= i < q.len() && q[i] == id@;
                    if i > p {
                        lemma_text_less_trichotomy(q[p as int], id@);
                    }
                }
            }
            false
        }
    }

    /// The set with `id` added.
    pub fn insert(self, id: String) -> (r: IdSet)
        ensures
            r@ == self@.insert(id@),
    {
        proof {
            use_type_invariant(&self);
        }
        let p = self.lower_bound(id.as_str());
        let ghost q = texts(self.ids@);
        if p < self.ids.len() && !str_less(id.as_str(), self.ids[p].as_str()) {
            proof {
                lemma_text_less_trichotomy(q[p as int], id@);
            }
            self
        } else {
            let ghost x = id@;
            let mut ids = self.ids;
            ids.insert(p, id);
            proof {
                assert(texts(ids@) =~= q.insert(p as int, x));
                assert(!q.contains(x)) by {
                    if q.contains(x) {
                        let i = choose|i: int| 0 <= i < q.len() && q[i] == x;
                        if i > p {
                            lemma_text_less_trichotomy(q[p as int], x);
                        }
                    }
                }
                lemma_insert_keeps_sorted(q, p as int, x);
            }
            IdSet { ids }
        }
    }

    /// The elements in increasing order.
    pub fn into_vec(self) -> (v: Vec<String>)
        ensures
            texts(v@) == sorted_seq_of(self@),
            strictly_sorted(texts(v@)),
            texts(v@).to_set() == self@,
    {
        proof {
            use_type_invariant(&self);
            lemma_sorted_seq_of(texts(self.ids@));
        }
        self.ids
    }
}

/// A strictly increasing sequence has as many elements as its set.
pub proof fn lemma_sorted_len(q: Seq<Seq<char>>)
    requires
        strictly_sorted(q),
    ensures
        q.to_set().finite(),
        q.to_set().len() == q.len(),
    decreases q.len(),
{
    if q.len() == 0 {
        assert(q.to_set() =~= Set::<Seq<char>>::empty());
    } else {
        lemma_sorted_tail(q);
        lemma_sorted_len(q.drop_first());
    }
}

} // verus!
