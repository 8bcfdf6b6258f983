//! A binary max-heap over any type with a rank order.
//!
//! The heap is the priority collection behind both search engines: it keeps
//! an unordered bag of candidates from which only the maximum-ranked one is
//! extracted. Its behaviour is pinned exactly: `push` appends the new item
//! and bubbles it up while it ranks strictly above its parent, and `pop`
//! swaps the root with the last item, removes it, and sinks the replacement
//! while it ranks strictly below a child, preferring the right child on
//! ties. Equal-ranked items therefore leave in a fixed, deterministic order
//! that callers can reproduce from the specification functions alone.

use vstd::prelude::*;

verus! {

/// A rank order for heap items, given on the item's mathematical model.
///
/// The order must be total and transitive; implementations discharge both
/// obligations as proofs. Equal-ranked values are allowed: the heap resolves
/// their order deterministically by its sift rules.
pub trait Rank: View + Sized {
    /// `a` ranks no higher than `b`.
    spec fn rank_le_spec(a: Self::V, b: Self::V) -> bool;

    /// Any two values are comparable.
    proof fn rank_le_total(a: Self::V, b: Self::V)
        ensures
            Self::rank_le_spec(a, b) || Self::rank_le_spec(b, a),
    ;

    /// The order is transitive.
    proof fn rank_le_trans(a: Self::V, b: Self::V, c: Self::V)
        requires
            Self::rank_le_spec(a, b),
            Self::rank_le_spec(b, c),
        ensures
            Self::rank_le_spec(a, c),
    ;

    /// Executable comparison, agreeing with the spec order on the models.
    fn rank_le(&self, other: &Self) -> (r: bool)
        ensures
            r == Self::rank_le_spec(self@, other@),
    ;
}

/// The models of a sequence of items.
pub open spec fn seq_view<T: View>(s: Seq<T>) -> Seq<T::V> {
    s.map_values(|x: T| x@)
}

/// `s` with the items at `i` and `j` exchanged.
pub open spec fn seq_swap<V>(s: Seq<V>, i: int, j: int) -> Seq<V>
    recommends
        0 <= i < s.len(),
        0 <= j < s.len(),
{
    s.update(i, s[j]).update(j, s[i])
}

/// Bubble the item at `pos` up while it ranks strictly above its parent.
pub open spec fn spec_sift_up<T: Rank>(s: Seq<T::V>, pos: nat) -> Seq<T::V>
    decreases pos,
{
    if pos == 0 {
        s
    } else {
        let parent = ((pos - 1) / 2) as nat;
        if T::rank_le_spec(s[pos as int], s[parent as int]) {
            s
        } else {
            spec_sift_up::<T>(seq_swap(s, pos as int, parent as int), parent)
        }
    }
}

/// The heap after pushing `v`: append, then bubble up.
pub open spec fn spec_heap_push<T: Rank>(s: Seq<T::V>, v: T::V) -> Seq<T::V> {
    spec_sift_up::<T>(s.push(v), s.len())
}

/// Sink the item at `pos` while it ranks strictly below its greater child,
/// stepping to the right child when the children rank equal.
pub open spec fn spec_sift_down<T: Rank>(s: Seq<T::V>, pos: nat) -> Seq<T::V>
    decreases s.len() - pos,
{
    let c0 = 2 * pos + 1;
    if c0 >= s.len() {
        s
    } else {
        let c = if c0 + 1 < s.len() && T::rank_le_spec(s[c0 as int], s[c0 + 1 as int]) {
            (c0 + 1) as nat
        } else {
            c0 as nat
        };
        if T::rank_le_spec(s[c as int], s[pos as int]) {
            s
        } else {
            spec_sift_down::<T>(seq_swap(s, pos as int, c as int), c)
        }
    }
}

/// The heap left after popping the root of a non-empty heap: the last item
/// replaces the root and sinks.
pub open spec fn spec_heap_pop_rest<T: Rank>(s: Seq<T::V>) -> Seq<T::V>
    recommends
        s.len() > 0,
{
    spec_sift_down::<T>(s.update(0, s.last()).drop_last(), 0)
}

/// A priority collection from which only a maximum-ranked item can be
/// extracted. The view is the underlying array of models; `spec_heap_push`
/// and `spec_heap_pop_rest` say exactly how each operation rearranges it.
pub struct Heap<T: Rank> {
    data: Vec<T>,
}

impl<T: Rank> View for Heap<T> {
    type V = Seq<T::V>;

    closed spec fn view(&self) -> Seq<T::V> {
        seq_view(self.data@)
    }
}

/// Exchanging two items of a vector, by taking both out and putting both
/// back.
fn vec_swap<T>(v: &mut Vec<T>, i: usize, j: usize)
    requires
        i < j < old(v)@.len(),
    ensures
        final(v)@ == seq_swap(old(v)@, i as int, j as int),
{
    let xj = v.remove(j);
    let xi = v.remove(i);
    v.insert(i, xj);
    v.insert(j, xi);
    proof {
        assert(v@ =~= seq_swap(old(v)@, i as int, j as int));
    }
}

/// Mapping to models commutes with `update`.
proof fn lemma_seq_view_update<T: View>(s: Seq<T>, i: int, v: T)
    requires
        0 <= i < s.len(),
    ensures
        seq_view(s.update(i, v)) =~= seq_view(s).update(i, v@),
{
}

/// Mapping to models commutes with `push`.
proof fn lemma_seq_view_push<T: View>(s: Seq<T>, v: T)
    ensures
        seq_view(s.push(v)) =~= seq_view(s).push(v@),
{
}

/// Mapping to models commutes with `drop_last`.
proof fn lemma_seq_view_drop_last<T: View>(s: Seq<T>)
    requires
        s.len() > 0,
    ensures
        seq_view(s.drop_last()) =~= seq_view(s).drop_last(),
{
}

impl<T: Rank> Heap<T> {
    /// An empty heap.
    pub fn new() -> (r: Self)
        ensures
            r@ == Seq::<T::V>::empty(),
            spec_is_heap::<T>(r@),
    {
        let r = Heap { data: Vec::new() };
        proof {
            assert(r@ =~= Seq::<T::V>::empty());
        }
        r
    }

    /// Number of items held.
    pub fn len(&self) -> (r: usize)
        ensures
            r == self@.len(),
    {
        self.data.len()
    }

    /// Whether no item is held.
    pub fn is_empty(&self) -> (r: bool)
        ensures
            r == (self@.len() == 0),
    {
        self.data.len() == 0
    }

    /// A reference to the maximum-ranked item, if any.
    pub fn peek(&self) -> (r: Option<&T>)
        ensures
            self@.len() == 0 ==> r is None,
            self@.len() > 0 ==> (r matches Some(v) && v@ == self@[0]),
            self@.len() > 0 && spec_is_heap::<T>(self@) ==> (forall|i: int|
                0 <= i < self@.len() ==> T::rank_le_spec(#[trigger] self@[i], self@[0])),
    {
        proof {
            if self@.len() > 0 && spec_is_heap::<T>(self@) {
                assert forall|i: int| 0 <= i < self@.len() implies T::rank_le_spec(
                    #[trigger] self@[i],
                    self@[0],
                ) by {
                    lemma_heap_root_max::<T>(self@, i);
                }
            }
        }
        if self.data.len() == 0 {
            None
        } else {
            Some(&self.data[0])
        }
    }

    /// Insert `value`. Equal-ranked items settle deterministically: the new
    /// item moves up only while it ranks strictly above its parent.
    pub fn push(&mut self, value: T)
        ensures
            final(self)@ == spec_heap_push::<T>(old(self)@, value@),
            spec_is_heap::<T>(old(self)@) ==> spec_is_heap::<T>(final(self)@),
    {
        proof {
            if spec_is_heap::<T>(self@) {
                lemma_heap_push_is_heap::<T>(self@, value@);
            }
        }
        let ghost target = spec_heap_push::<T>(old(self)@, value@);
        proof {
            lemma_seq_view_push(self.data@, value);
        }
        self.data.push(value);
        let mut pos: usize = self.data.len() - 1;
        loop
            invariant_except_break
                pos < self.data@.len(),
                spec_sift_up::<T>(seq_view(self.data@), pos as nat) == target,
            ensures
                seq_view(self.data@) == target,
            decreases pos,
        {
            if pos == 0 {
                break;
            }
            let parent: usize = (pos - 1) / 2;
            if self.data[pos].rank_le(&self.data[parent]) {
                break;
            }
            proof {
                lemma_seq_view_update(self.data@, parent as int, self.data@[pos as int]);
                lemma_seq_view_update(
                    self.data@.update(parent as int, self.data@[pos as int]),
                    pos as int,
                    self.data@[parent as int],
                );
                assert(seq_view(seq_swap(self.data@, parent as int, pos as int)) =~= seq_swap(
                    seq_view(self.data@),
                    pos as int,
                    parent as int,
                ));
            }
            vec_swap(&mut self.data, parent, pos);
            pos = parent;
        }
    }

    /// Remove and return the root item, or `None` from an empty heap. When
    /// the heap shape holds — as it does for every heap built through this
    /// interface — the root ranks at least as high as everything else.
    pub fn pop(&mut self) -> (r: Option<T>)
        ensures
            old(self)@.len() == 0 ==> r is None && final(self)@ == old(self)@,
            old(self)@.len() > 0 ==> (r matches Some(v) && v@ == old(self)@[0] && final(self)@
                == spec_heap_pop_rest::<T>(old(self)@)),
            old(self)@.len() > 0 && spec_is_heap::<T>(old(self)@) ==> (forall|i: int|
                0 <= i < old(self)@.len() ==> T::rank_le_spec(
                    #[trigger] old(self)@[i],
                    old(self)@[0],
                )),
            spec_is_heap::<T>(old(self)@) ==> spec_is_heap::<T>(final(self)@),
    {
        if self.data.len() == 0 {
            return None;
        }
        proof {
            if spec_is_heap::<T>(self@) {
                lemma_heap_pop_rest_is_heap::<T>(self@);
                assert forall|i: int| 0 <= i < self@.len() implies T::rank_le_spec(
                    #[trigger] self@[i],
                    self@[0],
                ) by {
                    lemma_heap_root_max::<T>(self@, i);
                }
            }
        }
        let ghost target = spec_heap_pop_rest::<T>(old(self)@);
        proof {
            lemma_seq_view_update(self.data@, 0, self.data@.last());
            lemma_seq_view_drop_last(self.data@.update(0, self.data@.last()));
            assert(seq_view(self.data@.update(0, self.data@.last()).drop_last()) =~= seq_view(
                self.data@,
            ).update(0, seq_view(self.data@).last()).drop_last());
        }
        let top = self.data.swap_remove(0);
        let mut pos: usize = 0;
        loop
            invariant_except_break
                pos <= self.data@.len(),
                spec_sift_down::<T>(seq_view(self.data@), pos as nat) == target,
            ensures
                seq_view(self.data@) == target,
            decreases self.data@.len() - pos,
        {
            let len: usize = self.data.len();
            if pos >= len / 2 {
                proof {
                    assert(2 * (pos as int) + 1 >= len as int);
                }
                break;
            }
            let c0: usize = 2 * pos + 1;
            assert(c0 < len);
            let child: usize = if c0 + 1 < len && self.data[c0].rank_le(&self.data[c0 + 1]) {
                c0 + 1
            } else {
                c0
            };
            if self.data[child].rank_le(&self.data[pos]) {
                break;
            }
            proof {
                lemma_seq_view_update(self.data@, pos as int, self.data@[child as int]);
                lemma_seq_view_update(
                    self.data@.update(pos as int, self.data@[child as int]),
                    child as int,
                    self.data@[pos as int],
                );
                assert(seq_view(seq_swap(self.data@, pos as int, child as int)) =~= seq_swap(
                    seq_view(self.data@),
                    pos as int,
                    child as int,
                ));
            }
            vec_swap(&mut self.data, pos, child);
            pos = child;
        }
        Some(top)
    }
}

/// Exchanging two items neither adds nor removes a value.
proof fn lemma_seq_swap_contains<V>(s: Seq<V>, i: int, j: int)
    requires
        0 <= i < s.len(),
        0 <= j < s.len(),
    ensures
        seq_swap(s, i, j).len() == s.len(),
        forall|x: V| seq_swap(s, i, j).contains(x) <==> s.contains(x),
{
    let t = seq_swap(s, i, j);
    assert forall|x: V| t.contains(x) implies s.contains(x) by {
        let k = choose|k: int| 0 <= k < t.len() && t[k] == x;
        if k == i {
            assert(s[j] == x);
        } else if k == j {
            assert(s[i] == x);
        } else {
            assert(s[k] == x);
        }
    }
    assert forall|x: V| s.contains(x) implies t.contains(x) by {
        let k = choose|k: int| 0 <= k < s.len() && s[k] == x;
        if k == i {
            assert(t[j] == x);
        } else if k == j {
            assert(t[i] == x);
        } else {
            assert(t[k] == x);
        }
    }
}

/// Bubbling up only rearranges: same length, same values.
proof fn lemma_sift_up_contains<T: Rank>(s: Seq<T::V>, pos: nat)
    requires
        pos < s.len(),
    ensures
        spec_sift_up::<T>(s, pos).len() == s.len(),
        forall|x: T::V| spec_sift_up::<T>(s, pos).contains(x) <==> s.contains(x),
    decreases pos,
{
    if pos != 0 {
        let parent = ((pos - 1) / 2) as nat;
        if !T::rank_le_spec(s[pos as int], s[parent as int]) {
            lemma_seq_swap_contains(s, pos as int, parent as int);
            lemma_sift_up_contains::<T>(seq_swap(s, pos as int, parent as int), parent);
        }
    }
}

/// Sinking down only rearranges: same length, same values.
proof fn lemma_sift_down_contains<T: Rank>(s: Seq<T::V>, pos: nat)
    ensures
        spec_sift_down::<T>(s, pos).len() == s.len(),
        forall|x: T::V| spec_sift_down::<T>(s, pos).contains(x) <==> s.contains(x),
    decreases s.len() - pos,
{
    let c0 = 2 * pos + 1;
    if c0 < s.len() {
        let c = if c0 + 1 < s.len() && T::rank_le_spec(s[c0 as int], s[c0 + 1 as int]) {
            (c0 + 1) as nat
        } else {
            c0 as nat
        };
        if !T::rank_le_spec(s[c as int], s[pos as int]) {
            lemma_seq_swap_contains(s, pos as int, c as int);
            lemma_sift_down_contains::<T>(seq_swap(s, pos as int, c as int), c);
        }
    }
}

/// The heap-order edge at index `c`: the item there ranks no higher than
/// its parent.
pub open spec fn heap_edge<T: Rank>(s: Seq<T::V>, c: int) -> bool {
    T::rank_le_spec(s[c], s[(c - 1) / 2])
}

/// The heap shape: every item ranks no higher than its parent, so the root
/// is a maximum.
pub open spec fn spec_is_heap<T: Rank>(s: Seq<T::V>) -> bool {
    forall|c: int| 1 <= c < s.len() ==> #[trigger] heap_edge::<T>(s, c)
}

/// The heap shape with a hole at `pos` on the way up: every edge holds but
/// possibly the one from `pos`, and `pos`'s children already rank no higher
/// than `pos`'s parent.
spec fn heap_except_up<T: Rank>(s: Seq<T::V>, pos: int) -> bool {
    &&& forall|c: int| 1 <= c < s.len() && c != pos ==> #[trigger] heap_edge::<T>(s, c)
    &&& pos >= 1 ==> forall|c: int|
        1 <= c < s.len() && (c - 1) / 2 == pos ==> T::rank_le_spec(
            #[trigger] s[c],
            s[(pos - 1) / 2],
        )
}

/// The heap shape with a hole at `pos` on the way down: every edge holds
/// but possibly those from `pos`'s children, and those children rank no
/// higher than `pos`'s parent.
spec fn heap_except_down<T: Rank>(s: Seq<T::V>, pos: int) -> bool {
    &&& forall|c: int| 1 <= c < s.len() && (c - 1) / 2 != pos ==> #[trigger] heap_edge::<T>(s, c)
    &&& pos >= 1 ==> forall|c: int|
        1 <= c < s.len() && (c - 1) / 2 == pos ==> T::rank_le_spec(
            #[trigger] s[c],
            s[(pos - 1) / 2],
        )
}

/// Bubbling up from a state whose only possible violation is the edge from
/// `pos` restores the heap shape.
proof fn lemma_sift_up_heap<T: Rank>(s: Seq<T::V>, pos: nat)
    requires
        pos < s.len(),
        heap_except_up::<T>(s, pos as int),
    ensures
        spec_is_heap::<T>(spec_sift_up::<T>(s, pos)),
    decreases pos,
{
    let posi = pos as int;
    if pos == 0 {
        assert forall|c: int| 1 <= c < s.len() implies #[trigger] heap_edge::<T>(s, c) by {
            assert(c != posi);
        }
    } else {
        let p = (posi - 1) / 2;
        if T::rank_le_spec(s[posi], s[p]) {
            assert forall|c: int| 1 <= c < s.len() implies #[trigger] heap_edge::<T>(s, c) by {
                if c == posi {
                    assert(T::rank_le_spec(s[posi], s[p]));
                }
            }
        } else {
            T::rank_le_total(s[posi], s[p]);
            let s2 = seq_swap(s, posi, p);
            assert forall|c: int| 1 <= c < s2.len() && c != p implies #[trigger] heap_edge::<T>(
                s2,
                c,
            ) by {
                if c == posi {
                    assert(s2[posi] == s[p] && s2[p] == s[posi]);
                } else if (c - 1) / 2 == posi {
                    assert(s2[c] == s[c] && s2[posi] == s[p]);
                    assert(T::rank_le_spec(s[c], s[(posi - 1) / 2]));
                } else if (c - 1) / 2 == p {
                    assert(s2[c] == s[c] && s2[p] == s[posi]);
                    assert(heap_edge::<T>(s, c));
                    T::rank_le_trans(s[c], s[p], s[posi]);
                } else {
                    assert(heap_edge::<T>(s, c));
                    assert(s2[c] == s[c] && s2[(c - 1) / 2] == s[(c - 1) / 2]);
                }
            }
            if p >= 1 {
                let g = (p - 1) / 2;
                assert forall|c: int|
                    1 <= c < s2.len() && (c - 1) / 2 == p implies T::rank_le_spec(
                    #[trigger] s2[c],
                    s2[g],
                ) by {
                    assert(g != posi && g != p);
                    assert(s2[g] == s[g]);
                    if c == posi {
                        assert(s2[posi] == s[p]);
                        assert(heap_edge::<T>(s, p));
                    } else {
                        assert(s2[c] == s[c]);
                        assert(heap_edge::<T>(s, c));
                        assert(heap_edge::<T>(s, p));
                        T::rank_le_trans(s[c], s[p], s[g]);
                    }
                }
            }
            lemma_sift_up_heap::<T>(s2, p as nat);
        }
    }
}

/// Sinking down from a state whose only possible violations are the edges
/// from `pos`'s children restores the heap shape.
proof fn lemma_sift_down_heap<T: Rank>(s: Seq<T::V>, pos: nat)
    requires
        heap_except_down::<T>(s, pos as int),
    ensures
        spec_is_heap::<T>(spec_sift_down::<T>(s, pos)),
    decreases s.len() - pos,
{
    let posi = pos as int;
    let c0 = 2 * posi + 1;
    if c0 >= s.len() {
        assert forall|c: int| 1 <= c < s.len() implies #[trigger] heap_edge::<T>(s, c) by {
            assert((c - 1) / 2 < c);
            assert((c - 1) / 2 != posi);
        }
    } else {
        let ci = if c0 + 1 < s.len() && T::rank_le_spec(s[c0], s[c0 + 1]) {
            c0 + 1
        } else {
            c0
        };
        if c0 + 1 < s.len() {
            T::rank_le_total(s[c0], s[c0 + 1]);
        }
        if T::rank_le_spec(s[ci], s[posi]) {
            assert forall|c: int| 1 <= c < s.len() implies #[trigger] heap_edge::<T>(s, c) by {
                if (c - 1) / 2 == posi {
                    assert(c == c0 || c == c0 + 1);
                    if c != ci {
                        T::rank_le_trans(s[c], s[ci], s[posi]);
                    }
                }
            }
        } else {
            T::rank_le_total(s[ci], s[posi]);
            let s2 = seq_swap(s, posi, ci);
            assert forall|c: int| 1 <= c < s2.len() && (c - 1) / 2 != ci implies
                #[trigger] heap_edge::<T>(s2, c) by {
                if c == ci {
                    assert(s2[ci] == s[posi] && s2[posi] == s[ci]);
                } else if (c - 1) / 2 == posi {
                    assert(c == c0 || c == c0 + 1);
                    assert(s2[c] == s[c] && s2[posi] == s[ci]);
                } else if c == posi {
                    assert(posi >= 1);
                    assert(s2[c] == s[ci] && s2[(c - 1) / 2] == s[(c - 1) / 2]);
                    assert(T::rank_le_spec(s[ci], s[(posi - 1) / 2]));
                } else {
                    assert(heap_edge::<T>(s, c));
                    assert(s2[c] == s[c] && s2[(c - 1) / 2] == s[(c - 1) / 2]);
                }
            }
            assert forall|c: int|
                1 <= c < s2.len() && (c - 1) / 2 == ci implies T::rank_le_spec(
                #[trigger] s2[c],
                s2[(ci - 1) / 2],
            ) by {
                assert((ci - 1) / 2 == posi);
                assert(s2[c] == s[c] && s2[posi] == s[ci]);
                assert(heap_edge::<T>(s, c));
            }
            lemma_sift_down_heap::<T>(s2, ci as nat);
        }
    }
}

/// Pushing onto a heap keeps the heap shape.
pub proof fn lemma_heap_push_is_heap<T: Rank>(s: Seq<T::V>, v: T::V)
    requires
        spec_is_heap::<T>(s),
    ensures
        spec_is_heap::<T>(spec_heap_push::<T>(s, v)),
{
    let s1 = s.push(v);
    let pos = s.len() as int;
    assert forall|c: int| 1 <= c < s1.len() && c != pos implies #[trigger] heap_edge::<T>(
        s1,
        c,
    ) by {
        assert(heap_edge::<T>(s, c));
        assert(s1[c] == s[c] && s1[(c - 1) / 2] == s[(c - 1) / 2]);
    }
    assert(heap_except_up::<T>(s1, pos));
    lemma_sift_up_heap::<T>(s1, s.len());
}

/// Popping the root of a heap keeps the heap shape.
pub proof fn lemma_heap_pop_rest_is_heap<T: Rank>(s: Seq<T::V>)
    requires
        spec_is_heap::<T>(s),
        s.len() > 0,
    ensures
        spec_is_heap::<T>(spec_heap_pop_rest::<T>(s)),
{
    let u = s.update(0, s.last()).drop_last();
    assert forall|c: int| 1 <= c < u.len() && (c - 1) / 2 != 0 implies #[trigger] heap_edge::<T>(
        u,
        c,
    ) by {
        assert(heap_edge::<T>(s, c));
        assert(u[c] == s[c] && u[(c - 1) / 2] == s[(c - 1) / 2]);
    }
    assert(heap_except_down::<T>(u, 0));
    lemma_sift_down_heap::<T>(u, 0);
}

/// In a heap, the root ranks at least as high as every item.
pub proof fn lemma_heap_root_max<T: Rank>(s: Seq<T::V>, i: int)
    requires
        spec_is_heap::<T>(s),
        0 <= i < s.len(),
    ensures
        T::rank_le_spec(s[i], s[0]),
    decreases i,
{
    if i >= 1 {
        let p = (i - 1) / 2;
        assert(heap_edge::<T>(s, i));
        lemma_heap_root_max::<T>(s, p);
        T::rank_le_trans(s[i], s[p], s[0]);
    } else {
        T::rank_le_total(s[0], s[0]);
    }
}

/// A push adds exactly the new value to the heap's contents.
pub proof fn lemma_heap_push_contains<T: Rank>(s: Seq<T::V>, v: T::V)
    ensures
        spec_heap_push::<T>(s, v).len() == s.len() + 1,
        forall|x: T::V|
            #[trigger] spec_heap_push::<T>(s, v).contains(x) <==> (s.contains(x) || x == v),
{
    lemma_sift_up_contains::<T>(s.push(v), s.len());
    assert forall|x: T::V| s.push(v).contains(x) <==> (s.contains(x) || x == v) by {
        if s.push(v).contains(x) {
            let k = choose|k: int| 0 <= k < s.push(v).len() && s.push(v)[k] == x;
            if k < s.len() {
                assert(s[k] == x);
            }
        }
        if s.contains(x) {
            let k = choose|k: int| 0 <= k < s.len() && s[k] == x;
            assert(s.push(v)[k] == x);
        }
        if x == v {
            assert(s.push(v)[s.len() as int] == x);
        }
    }
}

/// A pop removes one item and adds nothing: what is left was already there.
pub proof fn lemma_heap_pop_rest_contains<T: Rank>(s: Seq<T::V>)
    requires
        s.len() > 0,
    ensures
        spec_heap_pop_rest::<T>(s).len() == s.len() - 1,
        forall|x: T::V| #[trigger] spec_heap_pop_rest::<T>(s).contains(x) ==> s.contains(x),
{
    let u = s.update(0, s.last()).drop_last();
    lemma_sift_down_contains::<T>(u, 0);
    assert forall|x: T::V| u.contains(x) implies s.contains(x) by {
        let k = choose|k: int| 0 <= k < u.len() && u[k] == x;
        if k == 0 {
            assert(s[s.len() - 1] == x);
        } else {
            assert(s[k] == x);
        }
    }
}

} // verus!
