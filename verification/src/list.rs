//! The list container: an owning arena of nodes plus head and tail indices.

use vstd::prelude::*;
use vstd::std_specs::cmp::PartialEqSpec;

verus! {

/// One storage unit of the chain: a value and the arena index of its
/// successor, or `None` at the end of the chain.
pub struct LinkedListNode<T> {
    pub value: T,
    pub next: Option<usize>,
}

impl<T> LinkedListNode<T> {
    /// Create a node with a given value and successor link.
    pub fn new(value: T, next: Option<usize>) -> (node: LinkedListNode<T>)
        ensures
            node.value == value,
            node.next == next,
    {
        LinkedListNode { value, next }
    }
}

/// A singly linked list. The nodes live in an owning arena; the chain
/// through them starts at `head`, and `tail` is a non-owning shortcut to
/// the last node of the chain, kept so that `append` is O(1).
///
/// A slot whose node has been unlinked stays in the arena but is no
/// longer reachable from `head`. The ghost `order` lists the arena
/// indices of the chain in head-to-tail order and ties the three
/// executable fields together in `wf`.
pub struct LinkedList<T> {
    pub(crate) nodes: Vec<LinkedListNode<T>>,
    pub(crate) head: Option<usize>,
    pub(crate) tail: Option<usize>,
    pub(crate) order: Ghost<Seq<usize>>,
}

impl<T> View for LinkedList<T> {
    type V = Seq<T>;

    /// The stored values in head-to-tail order.
    closed spec fn view(&self) -> Seq<T> {
        Seq::new(self.order@.len(), |k: int| self.nodes@[self.order@[k] as int].value)
    }
}

/// The view after inserting `v` at the front.
pub open spec fn prepended<T>(s: Seq<T>, v: T) -> Seq<T> {
    seq![v] + s
}

/// The view after inserting `v` at the end.
pub open spec fn appended<T>(s: Seq<T>, v: T) -> Seq<T> {
    s.push(v)
}

/// The view after inserting `v` at position `i`; a position past the end
/// degrades to an insertion at the end.
pub open spec fn inserted<T>(s: Seq<T>, v: T, i: int) -> Seq<T> {
    if 0 <= i <= s.len() {
        s.subrange(0, i) + seq![v] + s.subrange(i, s.len() as int)
    } else {
        appended(s, v)
    }
}

/// The position of the first value of `s` that compares equal to `v`,
/// or `s.len()` when no value of `s` does.
pub open spec fn find_index<T: PartialEq>(s: Seq<T>, v: T) -> int
    decreases s.len(),
{
    if s.len() == 0 {
        0
    } else if s[0].eq_spec(&v) {
        0
    } else {
        1 + find_index(s.skip(1), v)
    }
}

/// The view after discarding the whole run of leading values of `s` that
/// compare equal to `v`.
pub open spec fn drop_leading_matches<T: PartialEq>(s: Seq<T>, v: T) -> Seq<T>
    decreases s.len(),
{
    if s.len() > 0 && s[0].eq_spec(&v) {
        drop_leading_matches(s.skip(1), v)
    } else {
        s
    }
}

/// The view after removing the first value of `s` that compares equal to
/// `v`, or `s` itself when no value does.
pub open spec fn remove_first_match<T: PartialEq>(s: Seq<T>, v: T) -> Seq<T> {
    if find_index(s, v) < s.len() {
        s.remove(find_index(s, v))
    } else {
        s
    }
}

/// The view after a deletion of `v`: the whole leading run of values
/// comparing equal to `v` is discarded, and then the first match left in
/// the remainder, if any, is removed as well.
pub open spec fn deleted<T: PartialEq>(s: Seq<T>, v: T) -> Seq<T> {
    remove_first_match(drop_leading_matches(s, v), v)
}

impl<T> LinkedList<T> {
    /// Well-formedness of the representation: `order` holds distinct
    /// in-bounds arena indices; `head` and `tail` are absent exactly when
    /// the chain is empty; otherwise `head` is the first index of the
    /// chain, every link follows `order`, and `tail` names the unique
    /// node of the chain without a successor.
    pub closed spec fn wf(self) -> bool {
        let ord = self.order@;
        &&& forall|k: int| 0 <= k < ord.len() ==> (#[trigger] ord[k]) < self.nodes@.len()
        &&& forall|k1: int, k2: int| 0 <= k1 < k2 < ord.len() ==> ord[k1] != ord[k2]
        &&& self.head == (if ord.len() == 0 {
            Option::<usize>::None
        } else {
            Some(ord[0])
        })
        &&& self.tail == (if ord.len() == 0 {
            Option::<usize>::None
        } else {
            Some(ord[ord.len() - 1])
        })
        &&& forall|k: int|
            0 <= k < ord.len() - 1 ==> (#[trigger] self.nodes@[ord[k] as int].next) == Some(
                ord[k + 1],
            )
        &&& ord.len() > 0 ==> self.nodes@[ord[ord.len() - 1] as int].next is None
    }

    /// Create an empty list.
    pub fn new() -> (list: LinkedList<T>)
        ensures
            list.wf(),
            list@ == Seq::<T>::empty(),
    {
        let list = LinkedList {
            nodes: Vec::new(),
            head: None,
            tail: None,
            order: Ghost(Seq::empty()),
        };
        proof {
            assert(list@ =~= Seq::<T>::empty());
        }
        list
    }

    /// Insert `value` at the front of the list.
    pub fn prepend(&mut self, value: T)
        requires
            old(self).wf(),
        ensures
            final(self).wf(),
            final(self)@ == prepended(old(self)@, value),
    {
        let idx = self.nodes.len();
        let next = self.head;
        self.nodes.push(LinkedListNode { value, next });
        if self.tail.is_none() {
            self.tail = Some(idx);
        }
        self.head = Some(idx);
        self.order = Ghost(seq![idx] + self.order@);
        proof {
            assert(self@ =~= prepended(old(self)@, value));
        }
    }

    /// Insert `value` at the end of the list. O(1) through the tail
    /// shortcut: no walk of the chain is needed.
    pub fn append(&mut self, value: T)
        requires
            old(self).wf(),
        ensures
            final(self).wf(),
            final(self)@ == appended(old(self)@, value),
    {
        let idx = self.nodes.len();
        self.nodes.push(LinkedListNode { value, next: None });
        match self.tail {
            Some(t) => {
                self.nodes[t].next = Some(idx);
            },
            None => {
                self.head = Some(idx);
            },
        }
        self.tail = Some(idx);
        self.order = Ghost(self.order@.push(idx));
        proof {
            assert(self@ =~= appended(old(self)@, value));
        }
    }

    /// Insert `value` at 0-based position `index` of the chain. Position
    /// 0 is a prepend; a position at or past the current length degrades
    /// to an append; no error is raised for an out-of-range position.
    pub fn insert(&mut self, value: T, index: usize)
        requires
            old(self).wf(),
        ensures
            final(self).wf(),
            final(self)@ == inserted(old(self)@, value, index as int),
    {
        if index == 0 {
            self.prepend(value);
            proof {
                assert(inserted(old(self)@, value, 0) =~= prepended(old(self)@, value));
            }
            return;
        }
        let mut cur_opt = self.head;
        let mut position: usize = 1;
        while cur_opt.is_some()
            invariant
                self == old(self),
                self.wf(),
                1 <= position <= index,
                position - 1 <= self.order@.len(),
                cur_opt == (if position - 1 < self.order@.len() {
                    Some(self.order@[position - 1])
                } else {
                    Option::<usize>::None
                }),
            decreases index - position,
        {
            let cur = cur_opt.unwrap();
            if position == index {
                // Splice the new node between the node at `position - 1`
                // and its former successor.
                let idx = self.nodes.len();
                let succ = self.nodes[cur].next;
                self.nodes.push(LinkedListNode { value, next: succ });
                self.nodes[cur].next = Some(idx);
                if succ.is_none() {
                    // The new node is now last: re-validate the tail
                    // shortcut to keep it at the true last node.
                    self.tail = Some(idx);
                }
                self.order = Ghost(
                    self.order@.subrange(0, position as int) + seq![idx] + self.order@.subrange(
                        position as int,
                        self.order@.len() as int,
                    ),
                );
                proof {
                    assert(self.wf());
                    assert(self@ =~= inserted(old(self)@, value, index as int));
                }
                return;
            }
            cur_opt = self.nodes[cur].next;
            position = position + 1;
        }
        // The walk ran out before reaching `index`: the position is past
        // the end of the chain, so the insertion degrades to an append.
        self.append(value);
        proof {
            assert(self@ =~= inserted(old(self)@, value, index as int));
        }
    }
}

impl<T: PartialEq> LinkedList<T> {
    /// Scan the chain from the head and return the first node whose value
    /// compares equal to `value`, or `None` when no value of the list
    /// does.
    pub fn find(&self, value: &T) -> (found: Option<&LinkedListNode<T>>)
        requires
            self.wf(),
            T::obeys_eq_spec(),
        ensures
            match found {
                Some(node) => {
                    &&& find_index(self@, *value) < self@.len()
                    &&& node.value == self@[find_index(self@, *value)]
                    &&& node.value.eq_spec(value)
                },
                None => find_index(self@, *value) == self@.len(),
            },
    {
        let mut cur_opt = self.head;
        let ghost mut position: int = 0;
        while cur_opt.is_some()
            invariant
                self.wf(),
                T::obeys_eq_spec(),
                0 <= position <= self@.len(),
                cur_opt == (if position < self.order@.len() {
                    Some(self.order@[position])
                } else {
                    Option::<usize>::None
                }),
                forall|j: int| 0 <= j < position ==> !(#[trigger] self@[j]).eq_spec(value),
            decreases self@.len() - position,
        {
            let cur = cur_opt.unwrap();
            if self.nodes[cur].value == *value {
                proof {
                    crate::laws::lemma_find_index_first(self@, *value);
                    let fi = find_index(self@, *value);
                    assert(self@[position] == self.nodes@[cur as int].value);
                    assert(self@[position].eq_spec(value));
                    if fi < position {
                        assert(!self@[fi].eq_spec(value));
                        assert(false);
                    }
                    if fi > position {
                        assert(!self@[position].eq_spec(value));
                        assert(false);
                    }
                }
                return Some(&self.nodes[cur]);
            }
            cur_opt = self.nodes[cur].next;
            proof {
                position = position + 1;
            }
        }
        proof {
            crate::laws::lemma_find_index_first(self@, *value);
        }
        None
    }

    /// Walk the whole chain and check the tail shortcut against it: the
    /// shortcut must be absent exactly when the head is, and must
    /// otherwise name the node reached from the head that has no
    /// successor. On a well-formed list the check always passes; it is
    /// the runtime face of the structural invariant, meant to be called
    /// after any mutation.
    pub fn tail_consistent(&self) -> (b: bool)
        requires
            self.wf(),
        ensures
            b,
    {
        match self.head {
            None => self.tail.is_none(),
            Some(h) => {
                let mut cur: usize = h;
                let ghost mut position: int = 0;
                while self.nodes[cur].next.is_some()
                    invariant
                        self.wf(),
                        0 <= position < self.order@.len(),
                        cur == self.order@[position],
                    decreases self.order@.len() - position,
                {
                    cur = self.nodes[cur].next.unwrap();
                    proof {
                        position = position + 1;
                    }
                }
                proof {
                    assert(position == self.order@.len() - 1);
                }
                match self.tail {
                    Some(t) => t == cur,
                    None => false,
                }
            },
        }
    }

    /// Whether the list starts with a value that compares equal to
    /// `value`.
    fn head_matches(&self, value: &T) -> (b: bool)
        requires
            self.wf(),
            T::obeys_eq_spec(),
        ensures
            b == (self@.len() > 0 && self@[0].eq_spec(value)),
    {
        match self.head {
            None => false,
            Some(h) => self.nodes[h].value == *value,
        }
    }

    /// Remove values comparing equal to `value`: first the whole run of
    /// matches at the head, if any, and after that the first match found
    /// while walking the rest of the chain, if any. On an empty list, or
    /// when no value matches, the call has no effect; no error is ever
    /// signalled.
    pub fn delete(&mut self, value: T)
        requires
            old(self).wf(),
            T::obeys_eq_spec(),
        ensures
            final(self).wf(),
            final(self)@ == deleted(old(self)@, value),
    {
        // Head-clearing phase: advance the head past every leading match.
        let ghost mut dropped: int = 0;
        while self.head_matches(&value)
            invariant
                self.wf(),
                T::obeys_eq_spec(),
                0 <= dropped <= old(self)@.len(),
                self@ == old(self)@.skip(dropped),
                forall|j: int| 0 <= j < dropped ==> (#[trigger] old(self)@[j]).eq_spec(&value),
            decreases self@.len(),
        {
            let ghost prev = *self;
            let h = self.head.unwrap();
            self.head = self.nodes[h].next;
            if self.head.is_none() {
                // The list became empty: clear the tail shortcut too.
                self.tail = None;
            }
            self.order = Ghost(self.order@.skip(1));
            proof {
                dropped = dropped + 1;
                assert forall|k: int| 0 <= k < self@.len() implies self@[k] == old(
                    self,
                )@.skip(dropped)[k] by {
                    assert(self.order@[k] == prev.order@[k + 1]);
                    assert(prev@[k + 1] == prev.nodes@[prev.order@[k + 1] as int].value);
                }
                assert(self@ =~= old(self)@.skip(dropped));
            }
        }
        proof {
            crate::laws::lemma_drop_leading_is_skip(old(self)@, value, dropped);
        }
        // Mid-chain phase: inspect each node's successor and unlink the
        // first one whose value matches.
        let ghost s1 = self@;
        let mut cur_opt = self.head;
        let ghost mut position: int = 0;
        while cur_opt.is_some()
            invariant
                self.wf(),
                T::obeys_eq_spec(),
                self@ == s1,
                s1 == drop_leading_matches(old(self)@, value),
                s1.len() > 0 ==> !s1[0].eq_spec(&value),
                0 <= position <= s1.len(),
                cur_opt == (if position < self.order@.len() {
                    Some(self.order@[position])
                } else {
                    Option::<usize>::None
                }),
                forall|j: int|
                    1 <= j <= position && j < s1.len() ==> !(#[trigger] s1[j]).eq_spec(&value),
            decreases s1.len() - position,
        {
            let cur = cur_opt.unwrap();
            match self.nodes[cur].next {
                Some(nx) => {
                    if self.nodes[nx].value == value {
                        // Unlink the matching successor.
                        let nn = self.nodes[nx].next;
                        self.nodes[cur].next = nn;
                        if nn.is_none() {
                            // The unlinked node was the tail: the tail
                            // shortcut moves back to its predecessor.
                            self.tail = Some(cur);
                        }
                        self.order = Ghost(self.order@.remove(position + 1));
                        proof {
                            assert(s1[position + 1].eq_spec(&value));
                            crate::laws::lemma_find_index_first(s1, value);
                            let fi = find_index(s1, value);
                            if fi < position + 1 {
                                assert(!s1[fi].eq_spec(&value));
                                assert(false);
                            }
                            if fi > position + 1 {
                                assert(!s1[position + 1].eq_spec(&value));
                                assert(false);
                            }
                            assert(self.wf());
                            assert(self@ =~= s1.remove(position + 1));
                        }
                        return;
                    }
                },
                None => {},
            }
            cur_opt = self.nodes[cur].next;
            proof {
                position = position + 1;
            }
        }
        // The walk found no further match: the remainder stays as it is.
        proof {
            crate::laws::lemma_find_index_first(s1, value);
            if find_index(s1, value) < s1.len() {
                assert(s1[find_index(s1, value)].eq_spec(&value));
                assert(false);
            }
        }
    }
}

impl LinkedList<u64> {
    /// Produce the left-to-right rendering of the list: each value in
    /// decimal followed by the arrow marker, then the end-of-list
    /// marker.
    pub fn render(&self) -> (out: String)
        requires
            self.wf(),
        ensures
            out@ == crate::render::render_spec(self@),
    {
        let mut out = String::new();
        let mut cur_opt = self.head;
        let ghost mut position: int = 0;
        proof {
            assert(self@.skip(0) =~= self@);
            assert(Seq::<char>::empty() + crate::render::render_spec(self@)
                =~= crate::render::render_spec(self@));
        }
        while cur_opt.is_some()
            invariant
                self.wf(),
                0 <= position <= self@.len(),
                cur_opt == (if position < self.order@.len() {
                    Some(self.order@[position])
                } else {
                    Option::<usize>::None
                }),
                out@ + crate::render::render_spec(self@.skip(position)) == crate::render::render_spec(self@),
            decreases self@.len() - position,
        {
            let cur = cur_opt.unwrap();
            crate::render::push_decimal(&mut out, self.nodes[cur].value);
            out.push(' ');
            out.push('-');
            out.push('>');
            out.push(' ');
            cur_opt = self.nodes[cur].next;
            proof {
                assert(self@.skip(position)[0] == self@[position]);
                assert(self@.skip(position).skip(1) =~= self@.skip(position + 1));
                position = position + 1;
                assert(out@ + crate::render::render_spec(self@.skip(position))
                    =~= crate::render::render_spec(self@));
            }
        }
        proof {
            assert(self@.skip(position) =~= Seq::<u64>::empty());
        }
        out.push('N');
        out.push('o');
        out.push('n');
        out.push('e');
        proof {
            assert(out@ =~= crate::render::render_spec(self@));
        }
        out
    }
}

} // verus!
