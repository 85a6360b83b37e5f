//! A doubly linked list whose nodes live in an arena and refer to each other
//! by slot: `next` is the forward link, `prev` a back-reference.
use vstd::prelude::*;

verus! {

/// One element with its forward and backward links (arena slots).
struct Node<T> {
    element: T,
    next: Option<usize>,
    prev: Option<usize>,
}

impl<T> Node<T> {
    fn new(element: T) -> (r: Self)
        ensures
            r.element == element,
            r.next is None,
            r.prev is None,
    {
        Node { element, next: None, prev: None }
    }
}

/// Points the forward link of slot `i` at `v`.
fn set_next<T>(nodes: &mut Vec<Node<T>>, i: usize, v: Option<usize>)
    requires
        i < old(nodes)@.len(),
    ensures
        final(nodes)@.len() == old(nodes)@.len(),
        forall|j: int|
            0 <= j < old(nodes)@.len() && j != i ==> #[trigger] final(nodes)@[j]
                == old(nodes)@[j],
        final(nodes)@[i as int].next == v,
        final(nodes)@[i as int].prev == old(nodes)@[i as int].prev,
        final(nodes)@[i as int].element == old(nodes)@[i as int].element,
{
    nodes[i].next = v;
}

/// Points the backward link of slot `i` at `v`.
fn set_prev<T>(nodes: &mut Vec<Node<T>>, i: usize, v: Option<usize>)
    requires
        i < old(nodes)@.len(),
    ensures
        final(nodes)@.len() == old(nodes)@.len(),
        forall|j: int|
            0 <= j < old(nodes)@.len() && j != i ==> #[trigger] final(nodes)@[j]
                == old(nodes)@[j],
        final(nodes)@[i as int].prev == v,
        final(nodes)@[i as int].next == old(nodes)@[i as int].next,
        final(nodes)@[i as int].element == old(nodes)@[i as int].element,
{
    nodes[i].prev = v;
}

/// Lends out the element in slot `i`, links untouched.
fn element_mut<T>(nodes: &mut Vec<Node<T>>, i: usize) -> (r: &mut T)
    requires
        i < old(nodes)@.len(),
    ensures
        *r == old(nodes)@[i as int].element,
        final(nodes)@.len() == old(nodes)@.len(),
        forall|j: int|
            0 <= j < old(nodes)@.len() && j != i ==> #[trigger] final(nodes)@[j]
                == old(nodes)@[j],
        final(nodes)@[i as int].element == *final(r),
        final(nodes)@[i as int].next == old(nodes)@[i as int].next,
        final(nodes)@[i as int].prev == old(nodes)@[i as int].prev,
{
    &mut nodes[i].element
}

/// The slot at position `i` of `order`, or `None` when `i` is off either end.
spec fn slot_at(order: Seq<int>, i: int) -> Option<usize> {
    if 0 <= i < order.len() {
        Some(order[i] as usize)
    } else {
        None
    }
}

/// `order` lists each of the slots `0..n` once, and `rank` gives the
/// position of each slot.
spec fn is_perm(order: Seq<int>, rank: Seq<int>, n: int) -> bool {
    &&& order.len() == n
    &&& rank.len() == n
    &&& forall|i: int| 0 <= i < n ==> 0 <= #[trigger] order[i] < n && rank[order[i]] == i
    &&& forall|x: int| 0 <= x < n ==> 0 <= #[trigger] rank[x] < n && order[rank[x]] == x
}

/// `order` with the last slot of an arena of `n` renamed to `idx`.
spec fn relabel(order: Seq<int>, n: int, idx: int) -> Seq<int> {
    order.map_values(|x: int| if x + 1 == n { idx } else { x })
}

/// The positions after the one at `k` is removed and the last slot moves
/// into slot `idx`.
spec fn removed_rank(rank: Seq<int>, k: int, idx: int) -> Seq<int> {
    Seq::new(
        (rank.len() - 1) as nat,
        |x: int|
            {
                let r = if x == idx {
                    rank[rank.len() - 1]
                } else {
                    rank[x]
                };
                if r > k {
                    r - 1
                } else {
                    r
                }
            },
    )
}

/// Removing the slot at position `k` and moving the last slot into its
/// place keeps `order` and `rank` inverse to each other.
proof fn lemma_remove_perm(order: Seq<int>, rank: Seq<int>, n: int, k: int)
    requires
        is_perm(order, rank, n),
        0 <= k < n,
    ensures
        is_perm(
            relabel(order.remove(k), n, order[k]),
            removed_rank(rank, k, order[k]),
            n - 1,
        ),
{
    let idx = order[k];
    let ord1 = order.remove(k);
    let no = relabel(ord1, n, idx);
    let nr = removed_rank(rank, k, idx);
    let last = n - 1;
    assert forall|i: int| 0 <= i < last implies 0 <= #[trigger] no[i] < last && nr[no[i]]
        == i by {
        let oi = if i < k {
            i
        } else {
            i + 1
        };
        assert(ord1[i] == order[oi]);
        assert(rank[order[oi]] == oi);
        assert(order[oi] != idx);
    }
    assert forall|x: int| 0 <= x < last implies 0 <= #[trigger] nr[x] < last && no[nr[x]]
        == x by {
        if x == idx {
            let m0 = rank[last];
            assert(order[m0] == last);
            assert(m0 != k);
            let m = if m0 > k {
                m0 - 1
            } else {
                m0
            };
            assert(ord1[m] == order[m0]);
        } else {
            let r0 = rank[x];
            assert(order[r0] == x);
            assert(r0 != k);
            let r = if r0 > k {
                r0 - 1
            } else {
                r0
            };
            assert(ord1[r] == order[r0]);
        }
    }
}

/// What repeated calls of `next` yield from an iterator over `s`.
pub open spec fn drained_front<T>(s: Seq<T>) -> Seq<T>
    decreases s.len(),
{
    if s.len() == 0 {
        Seq::empty()
    } else {
        seq![s[0]] + drained_front(s.drop_first())
    }
}

/// What repeated calls of `next_back` yield from an iterator over `s`.
pub open spec fn drained_back<T>(s: Seq<T>) -> Seq<T>
    decreases s.len(),
{
    if s.len() == 0 {
        Seq::empty()
    } else {
        seq![s.last()] + drained_back(s.drop_last())
    }
}

/// Forward iteration yields the elements in list order, and backward
/// iteration yields exactly their reverse.
pub proof fn lemma_iteration_order<T>(s: Seq<T>)
    ensures
        drained_front(s) == s,
        drained_back(s) == s.reverse(),
    decreases s.len(),
{
    if s.len() > 0 {
        lemma_iteration_order(s.drop_first());
        lemma_iteration_order(s.drop_last());
        assert(drained_front(s) =~= s);
        assert(drained_back(s) =~= s.reverse());
    } else {
        assert(drained_back(s) =~= s.reverse());
    }
}

/// Pushing a value at either end and popping from the same end straight
/// after hands back that value and leaves the list as it was.
pub proof fn lemma_push_pop_same_end<T>(s: Seq<T>, x: T)
    ensures
        s.push(x).last() == x,
        s.push(x).drop_last() == s,
        (seq![x] + s)[0] == x,
        (seq![x] + s).drop_first() == s,
{
    assert(s.push(x).drop_last() =~= s);
    assert((seq![x] + s).drop_first() =~= s);
}

/// A doubly linked list with O(1) insertion and removal at both ends.
///
/// Every node is owned by the arena `nodes`, which holds exactly the
/// list's elements; `order` gives the slot of each position from front to
/// back and `rank` is its inverse.
pub struct LinkedList<T> {
    nodes: Vec<Node<T>>,
    head: Option<usize>,
    tail: Option<usize>,
    order: Ghost<Seq<int>>,
    rank: Ghost<Seq<int>>,
}

impl<T> View for LinkedList<T> {
    type V = Seq<T>;

    /// The elements from front to back.
    closed spec fn view(&self) -> Seq<T> {
        Seq::new(self.nodes@.len(), |i: int| self.nodes@[self.order@[i]].element)
    }
}

impl<T> LinkedList<T> {
    /// The links form exactly one chain from `head` to `tail` through every
    /// node of the arena.
    pub closed spec fn wf(&self) -> bool {
        let n = self.nodes@.len();
        let order = self.order@;
        &&& n <= usize::MAX
        &&& is_perm(order, self.rank@, n as int)
        &&& self.head == slot_at(order, 0)
        &&& self.tail == slot_at(order, n - 1)
        &&& forall|i: int|
            0 <= i < n ==> (#[trigger] self.nodes@[order[i]]).next == slot_at(order, i + 1)
                && self.nodes@[order[i]].prev == slot_at(order, i - 1)
    }

    /// Creates an empty list.
    pub fn new() -> (r: Self)
        ensures
            r.wf(),
            r@ == Seq::<T>::empty(),
    {
        LinkedList {
            nodes: Vec::new(),
            head: None,
            tail: None,
            order: Ghost(Seq::empty()),
            rank: Ghost(Seq::empty()),
        }
    }

    /// Returns the number of elements.
    pub fn len(&self) -> (r: usize)
        ensures
            r == self@.len(),
    {
        self.nodes.len()
    }

    /// Returns whether the list holds no element.
    pub fn is_empty(&self) -> (r: bool)
        ensures
            r == (self@.len() == 0),
    {
        self.nodes.len() == 0
    }

    /// Adds an element at the back.
    pub fn push_back(&mut self, element: T)
        requires
            old(self).wf(),
        ensures
            final(self).wf(),
            final(self)@ == old(self)@.push(element),
    {
        let n: usize = self.nodes.len();
        let mut node = Node::new(element);
        node.prev = self.tail;
        self.nodes.push(node);
        match self.tail {
            Some(t) => {
                set_next(&mut self.nodes, t, Some(n));
            },
            None => {
                self.head = Some(n);
            },
        }
        self.tail = Some(n);
        assert(self.nodes.len() == self.nodes@.len());
        self.order = Ghost(self.order@.push(n as int));
        self.rank = Ghost(self.rank@.push(n as int));
        assert(self@ =~= old(self)@.push(element));
    }

    /// Adds an element at the front.
    pub fn push_front(&mut self, element: T)
        requires
            old(self).wf(),
        ensures
            final(self).wf(),
            final(self)@ == seq![element] + old(self)@,
    {
        let n: usize = self.nodes.len();
        let mut node = Node::new(element);
        node.next = self.head;
        self.nodes.push(node);
        match self.head {
            Some(h) => {
                set_prev(&mut self.nodes, h, Some(n));
            },
            None => {
                self.tail = Some(n);
            },
        }
        self.head = Some(n);
        assert(self.nodes.len() == self.nodes@.len());
        self.order = Ghost(seq![n as int] + self.order@);
        self.rank = Ghost(self.rank@.map_values(|r: int| r + 1).push(0));
        assert(self@ =~= seq![element] + old(self)@);
    }

    /// The links of the arena follow `order` from `head` to `tail`, with no
    /// slot visited twice.
    closed spec fn chain(&self, order: Seq<int>) -> bool {
        let n = self.nodes@.len();
        &&& forall|i: int| 0 <= i < order.len() ==> 0 <= #[trigger] order[i] < n
        &&& forall|i: int, j: int|
            0 <= i < order.len() && 0 <= j < order.len() && i != j ==> #[trigger] order[i]
                != #[trigger] order[j]
        &&& self.head == slot_at(order, 0)
        &&& self.tail == slot_at(order, order.len() - 1)
        &&& forall|i: int|
            0 <= i < order.len() ==> (#[trigger] self.nodes@[order[i]]).next == slot_at(
                order,
                i + 1,
            ) && self.nodes@[order[i]].prev == slot_at(order, i - 1)
    }

    proof fn lemma_wf_chain(&self)
        requires
            self.wf(),
        ensures
            self.chain(self.order@),
    {
        assert forall|i: int, j: int|
            0 <= i < self.order@.len() && 0 <= j < self.order@.len() && i != j implies
            #[trigger] self.order@[i] != #[trigger] self.order@[j] by {
            assert(self.rank@[self.order@[i]] == i);
            assert(self.rank@[self.order@[j]] == j);
        }
    }

    /// Joins the neighbours of the node at position `k` of `order` to each
    /// other, so that the chain skips it.
    fn bypass(&mut self, idx: usize, order: Ghost<Seq<int>>, k: Ghost<int>)
        requires
            old(self).chain(order@),
            0 <= k@ < order@.len(),
            order@[k@] == idx,
        ensures
            final(self).chain(order@.remove(k@)),
            final(self).nodes@.len() == old(self).nodes@.len(),
            forall|x: int|
                0 <= x < old(self).nodes@.len() ==> (#[trigger] final(self).nodes@[x]).element
                    == old(self).nodes@[x].element,
            final(self).order == old(self).order,
            final(self).rank == old(self).rank,
    {
        let ghost ord = order@;
        let ghost ord1 = ord.remove(k@);
        let ghost n0 = self.nodes@;
        assert(self.nodes.len() == n0.len());
        let p = self.nodes[idx].prev;
        let q = self.nodes[idx].next;
        proof {
            assert(n0[ord[k@]].prev == slot_at(ord, k@ - 1));
            assert(n0[ord[k@]].next == slot_at(ord, k@ + 1));
            if k@ > 0 && k@ + 1 < ord.len() {
                assert(ord[k@ - 1] != ord[k@ + 1]);
            }
        }
        match p {
            Some(pi) => {
                set_next(&mut self.nodes, pi, q);
            },
            None => {
                self.head = q;
            },
        }
        match q {
            Some(qi) => {
                set_prev(&mut self.nodes, qi, p);
            },
            None => {
                self.tail = p;
            },
        }
        assert forall|i: int, j: int|
            0 <= i < ord1.len() && 0 <= j < ord1.len() && i != j implies #[trigger] ord1[i]
            != #[trigger] ord1[j] by {
            let oi = if i < k@ {
                i
            } else {
                i + 1
            };
            let oj = if j < k@ {
                j
            } else {
                j + 1
            };
            assert(ord1[i] == ord[oi] && ord1[j] == ord[oj]);
        }
        assert forall|i: int| 0 <= i < ord1.len() implies (#[trigger] self.nodes@[ord1[i]]).next
            == slot_at(ord1, i + 1) && self.nodes@[ord1[i]].prev == slot_at(ord1, i - 1) by {
            let oi = if i < k@ {
                i
            } else {
                i + 1
            };
            assert(ord1[i] == ord[oi]);
            assert(n0[ord[oi]].next == slot_at(ord, oi + 1));
            assert(n0[ord[oi]].prev == slot_at(ord, oi - 1));
            if k@ > 0 && oi != k@ - 1 {
                assert(ord[oi] != ord[k@ - 1]);
            }
            if k@ + 1 < ord.len() && oi != k@ + 1 {
                assert(ord[oi] != ord[k@ + 1]);
            }
            if i + 1 < ord1.len() {
                let on = if i + 1 < k@ {
                    i + 1
                } else {
                    i + 2
                };
                assert(ord1[i + 1] == ord[on]);
            }
            if i >= 1 {
                let op = if i - 1 < k@ {
                    i - 1
                } else {
                    i
                };
                assert(ord1[i - 1] == ord[op]);
            }
        }
        proof {
            if ord1.len() > 0 {
                let first = if k@ == 0 {
                    1
                } else {
                    0
                };
                let end_pos = if k@ == ord.len() - 1 {
                    ord.len() - 2
                } else {
                    ord.len() - 1
                };
                assert(ord1[0] == ord[first]);
                assert(ord1[ord1.len() - 1] == ord[end_pos]);
            }
        }
    }

    /// Removes slot `idx`, which `order` does not visit, from the arena: the
    /// last slot, at position `m` of `order`, moves into it and its
    /// neighbours are pointed at the new slot.
    fn relocate(&mut self, idx: usize, order: Ghost<Seq<int>>, m: Ghost<int>) -> (r: T)
        requires
            old(self).chain(order@),
            idx < old(self).nodes@.len(),
            order@.len() + 1 == old(self).nodes@.len(),
            forall|i: int| 0 <= i < order@.len() ==> #[trigger] order@[i] != idx,
            idx + 1 != old(self).nodes@.len() ==> 0 <= m@ < order@.len() && order@[m@] + 1
                == old(self).nodes@.len(),
        ensures
            final(self).chain(relabel(order@, old(self).nodes@.len() as int, idx as int)),
            final(self).nodes@.len() == order@.len(),
            forall|x: int|
                0 <= x < order@.len() && x != idx ==> (#[trigger] final(self).nodes@[x]).element
                    == old(self).nodes@[x].element,
            idx < order@.len() ==> final(self).nodes@[idx as int].element
                == old(self).nodes@[order@.len() as int].element,
            r == old(self).nodes@[idx as int].element,
            final(self).order == old(self).order,
            final(self).rank == old(self).rank,
    {
        let ghost ord = order@;
        let ghost n0 = self.nodes@;
        assert(self.nodes.len() == n0.len());
        let last: usize = self.nodes.len() - 1;
        let ghost ord2 = relabel(ord, n0.len() as int, idx as int);
        let node = self.nodes.swap_remove(idx);
        if idx != last {
            let ghost n1 = self.nodes@;
            let ghost mm = m@;
            proof {
                assert(n1[idx as int] == n0[last as int]);
                assert(n0[ord[mm]].prev == slot_at(ord, mm - 1));
                assert(n0[ord[mm]].next == slot_at(ord, mm + 1));
                if mm > 0 {
                    assert(ord[mm - 1] != ord[mm]);
                }
                if mm + 1 < ord.len() {
                    assert(ord[mm + 1] != ord[mm]);
                }
                if mm > 0 && mm + 1 < ord.len() {
                    assert(ord[mm - 1] != ord[mm + 1]);
                }
            }
            let mp = self.nodes[idx].prev;
            let mq = self.nodes[idx].next;
            match mp {
                Some(a) => {
                    set_next(&mut self.nodes, a, Some(idx));
                },
                None => {
                    self.head = Some(idx);
                },
            }
            match mq {
                Some(b) => {
                    set_prev(&mut self.nodes, b, Some(idx));
                },
                None => {
                    self.tail = Some(idx);
                },
            }
            proof {
                assert forall|i: int| 0 <= i < ord2.len() implies 0 <= #[trigger] ord2[i]
                    < self.nodes@.len() by {
                    if ord[i] != last {
                        assert(ord[i] != idx);
                    }
                }
                assert forall|i: int, j: int|
                    0 <= i < ord2.len() && 0 <= j < ord2.len() && i != j implies #[trigger] ord2[i]
                    != #[trigger] ord2[j] by {
                    assert(ord[i] != ord[j]);
                    assert(ord[i] != idx && ord[j] != idx);
                }
                assert forall|i: int| 0 <= i < ord2.len() implies (#[trigger] self.nodes@[ord2[i]]).next
                    == slot_at(ord2, i + 1) && self.nodes@[ord2[i]].prev == slot_at(ord2, i - 1) by {
                    assert(n0[ord[i]].next == slot_at(ord, i + 1));
                    assert(n0[ord[i]].prev == slot_at(ord, i - 1));
                    if i != mm {
                        assert(ord[i] != ord[mm]);
                        assert(ord[i] != idx);
                    }
                    if i + 1 < ord.len() && i + 1 != mm {
                        assert(ord[i + 1] != ord[mm]);
                    }
                    if i >= 1 && i - 1 != mm {
                        assert(ord[i - 1] != ord[mm]);
                    }
                    if mm > 0 && i != mm - 1 {
                        assert(ord[i] != ord[mm - 1]);
                    }
                    if mm + 1 < ord.len() && i != mm + 1 {
                        assert(ord[i] != ord[mm + 1]);
                    }
                }
                if ord.len() > 0 {
                    if mm != 0 {
                        assert(ord[0] != ord[mm]);
                    }
                    if mm != ord.len() - 1 {
                        assert(ord[ord.len() - 1] != ord[mm]);
                    }
                }
            }
        } else {
            assert forall|i: int| 0 <= i < ord.len() implies #[trigger] ord2[i] == ord[i] by {
                assert(ord[i] != idx);
            }
            assert(ord2 =~= ord);
        }
        node.element
    }

    /// Detaches the node in slot `idx`, at position `k`, and returns its
    /// element.
    fn unlink(&mut self, idx: usize, k: Ghost<int>) -> (r: T)
        requires
            old(self).wf(),
            0 <= k@ < old(self)@.len(),
            old(self).order@[k@] == idx,
        ensures
            final(self).wf(),
            r == old(self)@[k@],
            final(self)@ == old(self)@.remove(k@),
    {
        let ghost n0 = self.nodes@;
        let ghost old_order = self.order@;
        let ghost old_rank = self.rank@;
        let ghost n = n0.len() as int;
        let ghost last = n - 1;
        let ghost shift = |r: int|
            if r > k@ {
                r - 1
            } else {
                r
            };
        let ghost m = shift(old_rank[last]);
        proof {
            self.lemma_wf_chain();
        }
        self.bypass(idx, Ghost(old_order), k);
        let ghost ord1 = old_order.remove(k@);
        proof {
            assert forall|i: int| 0 <= i < ord1.len() implies #[trigger] ord1[i] != idx by {
                let oi = if i < k@ {
                    i
                } else {
                    i + 1
                };
                assert(ord1[i] == old_order[oi]);
            }
            if idx != last {
                let m0 = old_rank[last];
                assert(old_order[m0] == last);
                assert(m0 != k@);
                assert(ord1[m] == old_order[m0]);
            }
        }
        let element = self.relocate(idx, Ghost(ord1), Ghost(m));
        self.order = Ghost(relabel(ord1, n, idx as int));
        self.rank = Ghost(removed_rank(old_rank, k@, idx as int));
        proof {
            lemma_remove_perm(old_order, old_rank, n, k@);
            assert forall|i: int| 0 <= i < last implies #[trigger] self.nodes@[self.order@[i]].element
                == n0[ord1[i]].element by {
                let oi = if i < k@ {
                    i
                } else {
                    i + 1
                };
                assert(ord1[i] == old_order[oi]);
            }
        }
        assert(self@ =~= old(self)@.remove(k@));
        element
    }

    /// Removes the front element and returns it, or `None` when empty.
    pub fn pop_front(&mut self) -> (r: Option<T>)
        requires
            old(self).wf(),
        ensures
            final(self).wf(),
            old(self)@.len() == 0 ==> r is None && final(self)@ == old(self)@,
            old(self)@.len() > 0 ==> r == Some(old(self)@[0]) && final(self)@ == old(self)@.drop_first(),
    {
        match self.head {
            None => None,
            Some(h) => {
                let element = self.unlink(h, Ghost(0));
                assert(old(self)@.remove(0) =~= old(self)@.drop_first());
                Some(element)
            },
        }
    }

    /// Removes the back element and returns it, or `None` when empty.
    pub fn pop_back(&mut self) -> (r: Option<T>)
        requires
            old(self).wf(),
        ensures
            final(self).wf(),
            old(self)@.len() == 0 ==> r is None && final(self)@ == old(self)@,
            old(self)@.len() > 0 ==> r == Some(old(self)@.last()) && final(self)@ == old(self)@.drop_last(),
    {
        match self.tail {
            None => None,
            Some(t) => {
                let ghost k = self.nodes@.len() - 1;
                let element = self.unlink(t, Ghost(k));
                assert(old(self)@.remove(k) =~= old(self)@.drop_last());
                Some(element)
            },
        }
    }

    /// Removes every element, front first.
    pub fn clear(&mut self)
        requires
            old(self).wf(),
        ensures
            final(self).wf(),
            final(self)@ == Seq::<T>::empty(),
    {
        while self.pop_front().is_some()
            invariant
                self.wf(),
            decreases self@.len(),
        {
        }
    }

    /// Returns a reference to the front element, or `None` when empty.
    pub fn front(&self) -> (r: Option<&T>)
        requires
            self.wf(),
        ensures
            self@.len() == 0 ==> r is None,
            self@.len() > 0 ==> r == Some(&self@[0]),
    {
        match self.head {
            None => None,
            Some(h) => Some(&self.nodes[h].element),
        }
    }

    /// Returns a reference to the back element, or `None` when empty.
    pub fn back(&self) -> (r: Option<&T>)
        requires
            self.wf(),
        ensures
            self@.len() == 0 ==> r is None,
            self@.len() > 0 ==> r == Some(&self@.last()),
    {
        match self.tail {
            None => None,
            Some(t) => Some(&self.nodes[t].element),
        }
    }

    /// Returns a mutable reference to the front element, or `None` when
    /// empty.
    pub fn front_mut(&mut self) -> (r: Option<&mut T>)
        requires
            old(self).wf(),
        ensures
            final(self).wf(),
            old(self)@.len() == 0 ==> r is None && final(self)@ == old(self)@,
            old(self)@.len() > 0 ==> r is Some && *r.unwrap() == old(self)@[0] && final(self)@
                == old(self)@.update(0, *final(r.unwrap())),
    {
        match self.head {
            None => None,
            Some(h) => {
                let r = element_mut(&mut self.nodes, h);
                Some(r)
            },
        }
    }

    /// Returns a mutable reference to the back element, or `None` when
    /// empty.
    pub fn back_mut(&mut self) -> (r: Option<&mut T>)
        requires
            old(self).wf(),
        ensures
            final(self).wf(),
            old(self)@.len() == 0 ==> r is None && final(self)@ == old(self)@,
            old(self)@.len() > 0 ==> r is Some && *r.unwrap() == old(self)@.last()
                && final(self)@ == old(self)@.update(old(self)@.len() - 1, *final(r.unwrap())),
    {
        match self.tail {
            None => None,
            Some(t) => {
                let r = element_mut(&mut self.nodes, t);
                Some(r)
            },
        }
    }

    /// Returns a double-ended iterator over the elements, front to back.
    pub fn iter(&self) -> (r: Iter<'_, T>)
        requires
            self.wf(),
        ensures
            r.wf(),
            r@ == self@,
    {
        let r = Iter { list: self, head: self.head, tail: self.tail, len: self.nodes.len(), front: Ghost(0) };
        assert(r@ =~= self@);
        r
    }

    /// Appends every item of `items` at the back, in order.
    pub fn extend(&mut self, items: Vec<T>)
        requires
            old(self).wf(),
        ensures
            final(self).wf(),
            final(self)@ == old(self)@ + items@,
    {
        let ghost start = self@;
        let ghost all = items@;
        for x in it: items.into_iter()
            invariant
                self.wf(),
                it.seq() == all,
                self@ == start + all.take(it.index() as int),
        {
            assert(all.take(it.index() as int + 1) =~= all.take(it.index() as int).push(x));
            self.push_back(x);
        }
        assert(all.take(all.len() as int) =~= all);
    }

    /// Builds a list holding the items of `items`, in order.
    pub fn from_iter(items: Vec<T>) -> (r: Self)
        ensures
            r.wf(),
            r@ == items@,
    {
        let mut list = LinkedList::new();
        list.extend(items);
        assert(list@ =~= items@);
        list
    }

    /// Returns a double-ended iterator that lends out each element mutably.
    pub fn iter_mut(&mut self) -> (r: IterMut<'_, T>)
        requires
            old(self).wf(),
        ensures
            r.wf(),
            r.items() == old(self)@,
            r.remaining() == old(self)@,
            r.position() == 0,
            *final(self) == *final(r.target()),
    {
        let head = self.head;
        let tail = self.tail;
        let len: usize = self.nodes.len();
        let r = IterMut { list: self, head, tail, len, front: Ghost(0) };
        assert(r.remaining() =~= old(self)@);
        r
    }
}

impl<T> Default for LinkedList<T> {
    /// An empty list.
    fn default() -> (r: Self)
        ensures
            r.wf(),
            r@ == Seq::<T>::empty(),
    {
        Self::new()
    }
}

/// Whether `cur` names a slot of an arena of `n` nodes.
fn in_arena(cur: Option<usize>, n: usize) -> (r: bool)
    ensures
        r == (cur is Some && cur.unwrap() < n),
{
    match cur {
        Some(c) => c < n,
        None => false,
    }
}

impl<T: Clone> Clone for LinkedList<T> {
    /// Copies the list by walking it front to back and appending a clone of
    /// each element to a new list.
    fn clone(&self) -> (r: Self)
        ensures
            r.wf(),
            self.wf() ==> r@.len() == self@.len(),
            self.wf() ==> forall|i: int|
                0 <= i < self@.len() ==> cloned::<T>(self@[i], #[trigger] r@[i]),
    {
        let mut out = LinkedList::new();
        let n: usize = self.nodes.len();
        let mut cur = self.head;
        let mut i: usize = 0;
        while i < n && in_arena(cur, n)
            invariant
                out.wf(),
                out@.len() == i,
                i <= n,
                n == self.nodes@.len(),
                self.wf() ==> cur == slot_at(self.order@, i as int),
                self.wf() ==> forall|j: int|
                    0 <= j < i ==> cloned::<T>(self@[j], #[trigger] out@[j]),
            decreases n - i,
        {
            let c: usize = cur.unwrap();
            let node = &self.nodes[c];
            out.push_back(node.element.clone());
            cur = node.next;
            i = i + 1;
        }
        out
    }
}

/// A double-ended iterator that lends out each element mutably in turn.
pub struct IterMut<'a, T> {
    list: &'a mut LinkedList<T>,
    head: Option<usize>,
    tail: Option<usize>,
    len: usize,
    front: Ghost<int>,
}

impl<'a, T> IterMut<'a, T> {
    /// The elements not yet yielded, front to back.
    pub closed spec fn remaining(&self) -> Seq<T> {
        self.list@.subrange(self.front@, self.front@ + self.len)
    }

    /// The position in the list of the first element not yet yielded.
    pub closed spec fn position(&self) -> int {
        self.front@
    }

    /// The list as it stands now.
    pub closed spec fn items(&self) -> Seq<T> {
        self.list@
    }

    /// The borrowed list.
    pub closed spec fn target(&self) -> &'a mut LinkedList<T> {
        self.list
    }

    /// Once the iterator is done with, the borrowed list keeps the value it
    /// has in the iterator.
    pub proof fn lemma_resolved(self)
        requires
            has_resolved(self),
        ensures
            *self.target() == *final(self.target()),
            final(self.target())@ == self.items(),
            self.wf() ==> final(self.target()).wf(),
    {
    }

    /// The cursors stand at the ends of the positions not yet yielded.
    pub closed spec fn wf(&self) -> bool {
        &&& self.list.wf()
        &&& 0 <= self.front@
        &&& self.front@ + self.len <= self.list@.len()
        &&& self.len > 0 ==> self.head == slot_at(self.list.order@, self.front@)
        &&& self.len > 0 ==> self.tail == slot_at(self.list.order@, self.front@ + self.len - 1)
    }

    /// Lends out the front element not yet yielded, or returns `None` when
    /// every element has been.
    pub fn next(&mut self) -> (r: Option<&mut T>)
        requires
            old(self).wf(),
        ensures
            final(self).wf(),
            *final(final(self).target()) == *final(old(self).target()),
            old(self).remaining().len() == 0 ==> {
                &&& r is None
                &&& final(self).items() == old(self).items()
                &&& final(self).remaining() == old(self).remaining()
            },
            old(self).remaining().len() > 0 ==> {
                &&& r is Some
                &&& *r.unwrap() == old(self).remaining()[0]
                &&& final(self).items() == old(self).items().update(
                    old(self).position(),
                    *final(r.unwrap()),
                )
                &&& final(self).remaining() == old(self).remaining().drop_first()
                &&& final(self).position() == old(self).position() + 1
            },
    {
        if self.len == 0 {
            return None;
        }
        match self.head {
            None => None,
            Some(h) => {
                self.head = self.list.nodes[h].next;
                self.len = self.len - 1;
                self.front = Ghost(self.front@ + 1);
                let r = element_mut(&mut self.list.nodes, h);
                Some(r)
            },
        }
    }

    /// Lends out the back element not yet yielded, or returns `None` when
    /// every element has been.
    pub fn next_back(&mut self) -> (r: Option<&mut T>)
        requires
            old(self).wf(),
        ensures
            final(self).wf(),
            *final(final(self).target()) == *final(old(self).target()),
            final(self).position() == old(self).position(),
            old(self).remaining().len() == 0 ==> {
                &&& r is None
                &&& final(self).items() == old(self).items()
                &&& final(self).remaining() == old(self).remaining()
            },
            old(self).remaining().len() > 0 ==> {
                &&& r is Some
                &&& *r.unwrap() == old(self).remaining().last()
                &&& final(self).items() == old(self).items().update(
                    old(self).position() + old(self).remaining().len() - 1,
                    *final(r.unwrap()),
                )
                &&& final(self).remaining() == old(self).remaining().drop_last()
            },
    {
        if self.len == 0 {
            return None;
        }
        match self.tail {
            None => None,
            Some(t) => {
                self.tail = self.list.nodes[t].prev;
                self.len = self.len - 1;
                let r = element_mut(&mut self.list.nodes, t);
                Some(r)
            },
        }
    }

    /// The number of elements not yet yielded, as a lower and an upper
    /// bound.
    pub fn size_hint(&self) -> (r: (usize, Option<usize>))
        requires
            self.wf(),
        ensures
            r.0 == self.remaining().len(),
            r.1 == Some(r.0),
    {
        (self.len, Some(self.len))
    }
}

/// A double-ended iterator over a list. It keeps its own cursors, so that
/// `next` and `next_back` can be interleaved and meet in the middle.
pub struct Iter<'a, T> {
    list: &'a LinkedList<T>,
    head: Option<usize>,
    tail: Option<usize>,
    len: usize,
    front: Ghost<int>,
}

impl<'a, T> View for Iter<'a, T> {
    type V = Seq<T>;

    /// The elements not yet yielded, front to back.
    closed spec fn view(&self) -> Seq<T> {
        self.list@.subrange(self.front@, self.front@ + self.len)
    }
}

impl<'a, T> Iter<'a, T> {
    /// The cursors stand at the ends of the positions not yet yielded.
    pub closed spec fn wf(&self) -> bool {
        &&& self.list.wf()
        &&& 0 <= self.front@
        &&& self.front@ + self.len <= self.list@.len()
        &&& self.len > 0 ==> self.head == slot_at(self.list.order@, self.front@)
        &&& self.len > 0 ==> self.tail == slot_at(self.list.order@, self.front@ + self.len - 1)
    }

    /// Yields the front element not yet yielded, or `None` when every
    /// element has been.
    pub fn next(&mut self) -> (r: Option<&'a T>)
        requires
            old(self).wf(),
        ensures
            final(self).wf(),
            old(self)@.len() == 0 ==> r is None && final(self)@ == old(self)@,
            old(self)@.len() > 0 ==> r == Some(&old(self)@[0]) && final(self)@ == old(self)@.drop_first(),
    {
        if self.len == 0 {
            return None;
        }
        let list: &'a LinkedList<T> = self.list;
        match self.head {
            None => None,
            Some(h) => {
                let node = &list.nodes[h];
                self.head = node.next;
                self.len = self.len - 1;
                self.front = Ghost(self.front@ + 1);
                assert(self@ =~= old(self)@.drop_first());
                Some(&node.element)
            },
        }
    }

    /// Yields the back element not yet yielded, or `None` when every
    /// element has been.
    pub fn next_back(&mut self) -> (r: Option<&'a T>)
        requires
            old(self).wf(),
        ensures
            final(self).wf(),
            old(self)@.len() == 0 ==> r is None && final(self)@ == old(self)@,
            old(self)@.len() > 0 ==> r == Some(&old(self)@.last()) && final(self)@ == old(self)@.drop_last(),
    {
        if self.len == 0 {
            return None;
        }
        let list: &'a LinkedList<T> = self.list;
        match self.tail {
            None => None,
            Some(t) => {
                let node = &list.nodes[t];
                self.tail = node.prev;
                self.len = self.len - 1;
                assert(self@ =~= old(self)@.drop_last());
                Some(&node.element)
            },
        }
    }

    /// The number of elements not yet yielded, as a lower and an upper
    /// bound.
    pub fn size_hint(&self) -> (r: (usize, Option<usize>))
        requires
            self.wf(),
        ensures
            r.0 == self@.len(),
            r.1 == Some(r.0),
    {
        (self.len, Some(self.len))
    }
}

} // verus!
