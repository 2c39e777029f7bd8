use vstd::math::min;
use vstd::prelude::*;
use crate::message::{cannot_insert, cannot_insert_message, no_item, no_item_message};

verus! {

/// One cell of the chain: a value and the arena slot of its successor.
struct Node {
    data: i32,
    next: Option<usize>,
}

/// A singly linked list of `i32` values.
///
/// The nodes live in an arena (`nodes`) and link to each other by slot
/// number. `head` is the slot of the first node and `last` caches the slot
/// of the final one, so that appending takes constant time. The ghost
/// `order` lists the slots in chain order, from `head` to `last`.
pub struct LinkedList {
    nodes: Vec<Node>,
    head: Option<usize>,
    last: Option<usize>,
    order: Ghost<Seq<usize>>,
}

impl View for LinkedList {
    type V = Seq<i32>;

    /// The values met when walking the chain from `head`.
    closed spec fn view(&self) -> Seq<i32> {
        Seq::new(self.order@.len(), |i: int| self.nodes@[self.order@[i] as int].data)
    }
}

impl LinkedList {
    /// The chain from `head` visits every slot of the arena exactly once,
    /// ends at `last`, and is no longer than `size` can count.
    pub closed spec fn well_formed(&self) -> bool {
        let ord = self.order@;
        let n = self.nodes@;
        &&& ord.len() == n.len()
        &&& ord.len() <= i32::MAX
        &&& forall|i: int| 0 <= i < ord.len() ==> ord[i] < n.len()
        &&& forall|i: int, j: int| 0 <= i < j < ord.len() ==> ord[i] != ord[j]
        &&& forall|i: int| 0 <= i < ord.len() - 1 ==> n[#[trigger] ord[i] as int].next == Some(ord[i + 1])
        &&& ord.len() > 0 ==> n[ord.last() as int].next is None
        &&& self.head == (if ord.len() == 0 { None } else { Some(ord[0]) })
        &&& self.last == (if ord.len() == 0 { None } else { Some(ord.last()) })
    }


    /// An empty list.
    pub fn new() -> (l: LinkedList)
        ensures
            l.well_formed(),
            l@ == Seq::<i32>::empty(),
    {
        let l = LinkedList { nodes: Vec::new(), head: None, last: None, order: Ghost(Seq::empty()) };
        assert(l@ =~= Seq::<i32>::empty());
        l
    }

    /// The number of values, counted by walking the chain from `head`.
    pub fn size(&self) -> (r: i32)
        requires
            self.well_formed(),
        ensures
            r as int == self@.len(),
    {
        let ghost len = self.order@.len();
        let mut count: i32 = 0;
        let mut cur = self.head;
        while cur.is_some()
            invariant
                self.well_formed(),
                len == self.order@.len(),
                0 <= count <= len,
                cur == (if count < len { Some(self.order@[count as int]) } else { None::<usize> }),
            decreases len - count,
        {
            let i = cur.unwrap();
            cur = self.nodes[i].next;
            count = count + 1;
        }
        count
    }

    /// Appends `value` after the last node, through the `last` cache.
    pub fn push_back(&mut self, value: i32)
        requires
            old(self).well_formed(),
            old(self)@.len() < i32::MAX,
        ensures
            final(self).well_formed(),
            final(self)@ == old(self)@.push(value),
    {
        let ghost ord = self.order@;
        let ghost old_nodes = self.nodes@;
        let s = self.nodes.len();
        match self.last {
            Some(l) => {
                let data = self.nodes[l].data;
                self.nodes.set(l, Node { data, next: Some(s) });
            },
            None => {
                self.head = Some(s);
            },
        }
        self.nodes.push(Node { data: value, next: None });
        self.last = Some(s);
        self.order = Ghost(ord.push(s));
        proof {
            let n = self.nodes@;
            assert forall|i: int| 0 <= i < ord.len() - 1 implies n[#[trigger] ord[i] as int]
                == old_nodes[ord[i] as int] by {
                assert(ord[i] != ord.last());
            }
            assert forall|i: int| 0 <= i < self.order@.len() - 1 implies n[#[trigger] self.order@[i] as int].next
                == Some(self.order@[i + 1]) by {
                if i < ord.len() - 1 {
                    assert(n[ord[i] as int] == old_nodes[ord[i] as int]);
                }
            }
        }
        assert(self@ =~= old(self)@.push(value)) by {
            assert forall|i: int| 0 <= i < ord.len() implies self.nodes@[#[trigger] ord[i] as int].data
                == old_nodes[ord[i] as int].data by {
                if i < ord.len() - 1 {
                    assert(ord[i] != ord.last());
                }
            }
        }
    }

    /// Puts `value` in front of the first node.
    pub fn push_front(&mut self, value: i32)
        requires
            old(self).well_formed(),
            old(self)@.len() < i32::MAX,
        ensures
            final(self).well_formed(),
            final(self)@ == seq![value] + old(self)@,
    {
        let ghost ord = self.order@;
        let s = self.nodes.len();
        self.nodes.push(Node { data: value, next: self.head });
        if self.last.is_none() {
            self.last = Some(s);
        }
        self.head = Some(s);
        self.order = Ghost(seq![s] + ord);
        assert(self@ =~= seq![value] + old(self)@);
    }

    /// The slot of the node at position `k`, found by walking `k` links from `head`.
    fn slot_at(&self, k: usize) -> (r: usize)
        requires
            self.well_formed(),
            k < self@.len(),
        ensures
            r == self.order@[k as int],
    {
        let mut cur = self.head.unwrap();
        let mut i: usize = 0;
        while i < k
            invariant
                self.well_formed(),
                k < self.order@.len(),
                i <= k,
                cur == self.order@[i as int],
            decreases k - i,
        {
            cur = self.nodes[cur].next.unwrap();
            i = i + 1;
        }
        cur
    }

    /// Links a new node holding `value` right after the node at position `k`.
    fn splice_after(&mut self, k: usize, value: i32)
        requires
            old(self).well_formed(),
            k < old(self)@.len(),
            old(self)@.len() < i32::MAX,
        ensures
            final(self).well_formed(),
            final(self)@ == old(self)@.insert(k + 1, value),
    {
        let ghost ord = self.order@;
        let ghost old_nodes = self.nodes@;
        let at = self.slot_at(k);
        let s = self.nodes.len();
        let data = self.nodes[at].data;
        let after = self.nodes[at].next;
        self.nodes.set(at, Node { data, next: Some(s) });
        self.nodes.push(Node { data: value, next: after });
        if after.is_none() {
            self.last = Some(s);
        }
        self.order = Ghost(ord.insert(k + 1, s));
        proof {
            let n = self.nodes@;
            let o = self.order@;
            assert forall|i: int| 0 <= i < ord.len() && i != k implies n[#[trigger] ord[i] as int]
                == old_nodes[ord[i] as int] by {
                assert(ord[i] != ord[k as int]);
            }
            assert forall|i: int| 0 <= i < o.len() - 1 implies n[#[trigger] o[i] as int].next
                == Some(o[i + 1]) by {
                if i < k {
                    assert(n[ord[i] as int] == old_nodes[ord[i] as int]);
                } else if i > k + 1 {
                    assert(n[ord[i - 1] as int] == old_nodes[ord[i - 1] as int]);
                }
            }
            if k + 1 < ord.len() {
                assert(n[ord.last() as int] == old_nodes[ord.last() as int]);
            }
            assert forall|i: int, j: int| 0 <= i < j < o.len() implies o[i] != o[j] by {
                if i < k + 1 && j > k + 1 {
                    assert(ord[i] != ord[j - 1]);
                } else if i > k + 1 {
                    assert(ord[i - 1] != ord[j - 1]);
                }
            }
            assert forall|i: int| 0 <= i < ord.len() implies n[#[trigger] ord[i] as int].data
                == old_nodes[ord[i] as int].data by {
                if i != k {
                    assert(n[ord[i] as int] == old_nodes[ord[i] as int]);
                }
            }
        }
        assert(self@ =~= old(self)@.insert(k + 1, value));
    }

    /// Inserts `value` right after the node at position `index`.
    ///
    /// An `index` equal to the size appends. An `index` past the size is
    /// refused with a message naming it. A negative `index` counts as zero,
    /// and on an empty list finds no node to insert after.
    pub fn insert_after_n(&mut self, value: i32, index: i32) -> (r: Result<(), String>)
        requires
            old(self).well_formed(),
            old(self)@.len() < i32::MAX,
        ensures
            final(self).well_formed(),
            final(self)@ == inserted_after(old(self)@, value, index as int),
            r is Ok <==> insert_after_succeeds(old(self)@, index as int),
            r matches Err(m) ==> m@ == insert_after_error(old(self)@, index as int),
    {
        let size = self.size();
        if size < index {
            return Err(no_item(index));
        }
        if size == index {
            self.push_back(value);
            return Ok(());
        }
        if size == 0 {
            return Err(cannot_insert(index));
        }
        let k: usize = if index < 0 { 0 } else { index as usize };
        self.splice_after(k, value);
        Ok(())
    }
    /// Sets the value at position `n` to `value`; does nothing when there
    /// is no node at position `n`.
    pub fn replace_n_item_with_value(&mut self, n: i32, value: i32)
        requires
            old(self).well_formed(),
        ensures
            final(self).well_formed(),
            final(self)@ == replaced(old(self)@, n as int, value),
    {
        let size = self.size();
        if n < 0 || n >= size {
            return;
        }
        let ghost ord = self.order@;
        let ghost old_nodes = self.nodes@;
        let at = self.slot_at(n as usize);
        let next = self.nodes[at].next;
        self.nodes.set(at, Node { data: value, next });
        proof {
            let m = self.nodes@;
            assert forall|i: int| 0 <= i < ord.len() && i != n implies m[#[trigger] ord[i] as int]
                == old_nodes[ord[i] as int] by {
                assert(ord[i] != ord[n as int]);
            }
            assert forall|i: int| 0 <= i < ord.len() - 1 implies m[#[trigger] ord[i] as int].next
                == Some(ord[i + 1]) by {
                if i != n {
                    assert(m[ord[i] as int] == old_nodes[ord[i] as int]);
                }
            }
            if ord.len() - 1 != n {
                assert(m[ord.last() as int] == old_nodes[ord.last() as int]);
            }
        }
        assert(self@ =~= old(self)@.update(n as int, value));
    }

    /// Moves the values into two new lists: those at positions below
    /// `index`, and the rest, each in its order.
    #[verifier::rlimit(30)]
    pub fn split_at_index(self, index: i32) -> (r: (LinkedList, LinkedList))
        requires
            self.well_formed(),
        ensures
            r.0.well_formed(),
            r.1.well_formed(),
            r.0@ == split_first(self@, index as int),
            r.1@ == split_second(self@, index as int),
    {
        let ghost s = self@;
        let ghost len = self.order@.len();
        let ghost cut = split_point(s, index as int);
        let mut first_list = LinkedList::new();
        let mut second_list = LinkedList::new();
        let mut current = self.head;
        let mut current_index: i32 = 0;
        while current.is_some()
            invariant
                self.well_formed(),
                s == self@,
                len == self.order@.len(),
                cut == split_point(s, index as int),
                0 <= current_index <= len,
                current == (if current_index < len { Some(self.order@[current_index as int]) } else { None::<usize> }),
                first_list.well_formed(),
                second_list.well_formed(),
                first_list@ == s.subrange(0, min(current_index as int, cut)),
                second_list@ == s.subrange(min(current_index as int, cut), current_index as int),
            decreases len - current_index,
        {
            let at = current.unwrap();
            let data = self.nodes[at].data;
            if current_index < index {
                first_list.push_back(data);
            } else {
                second_list.push_back(data);
            }
            assert(first_list@ =~= s.subrange(0, min(current_index + 1, cut)));
            assert(second_list@ =~= s.subrange(min(current_index + 1, cut), current_index + 1));
            current = self.nodes[at].next;
            current_index = current_index + 1;
        }
        (first_list, second_list)
    }

    /// The first value, read through `head`.
    pub fn front(&self) -> (r: Option<i32>)
        requires
            self.well_formed(),
        ensures
            r == (if self@.len() == 0 { None } else { Some(self@[0]) }),
    {
        match self.head {
            Some(h) => Some(self.nodes[h].data),
            None => None,
        }
    }

    /// The final value, read through the `last` cache.
    pub fn back(&self) -> (r: Option<i32>)
        requires
            self.well_formed(),
        ensures
            r == (if self@.len() == 0 { None } else { Some(self@.last()) }),
    {
        match self.last {
            Some(l) => Some(self.nodes[l].data),
            None => None,
        }
    }
    /// A cursor at the first node of the list.
    pub fn iter(&self) -> (it: LinkedListIterator<'_>)
        requires
            self.well_formed(),
        ensures
            it.valid(),
            it.items() == self@,
            it.position() == 0,
    {
        LinkedListIterator { list: self, current: self.head, position: Ghost(0) }
    }
}

/// A forward, single-pass cursor over a list's chain.
pub struct LinkedListIterator<'a> {
    list: &'a LinkedList,
    current: Option<usize>,
    position: Ghost<nat>,
}

impl<'a> LinkedListIterator<'a> {
    /// The values of the list walked over.
    pub closed spec fn items(&self) -> Seq<i32> {
        self.list@
    }

    /// How many values the cursor has yielded.
    pub closed spec fn position(&self) -> nat {
        self.position@
    }

    /// The cursor holds the slot at its position, or nothing once past the end.
    pub closed spec fn valid(&self) -> bool {
        let ord = self.list.order@;
        &&& self.list.well_formed()
        &&& self.position@ <= ord.len()
        &&& self.current == (if self.position@ < ord.len() { Some(ord[self.position@ as int]) } else { None::<usize> })
    }

    /// The values still to come.
    pub open spec fn remaining(&self) -> Seq<i32> {
        self.items().skip(self.position() as int)
    }

    /// Yields the value under the cursor and moves to its successor;
    /// yields nothing once the chain is exhausted.
    pub fn next(&mut self) -> (r: Option<i32>)
        requires
            old(self).valid(),
        ensures
            final(self).valid(),
            final(self).items() == old(self).items(),
            old(self).remaining().len() == 0 ==> r is None && final(self).position() == old(self).position(),
            old(self).remaining().len() > 0 ==> r == Some(old(self).remaining()[0])
                && final(self).position() == old(self).position() + 1,
    {
        match self.current {
            Some(at) => {
                let node = &self.list.nodes[at];
                self.current = node.next;
                self.position = Ghost(self.position@ + 1);
                Some(node.data)
            },
            None => None,
        }
    }
}

/// `index` clamped into `0..=s.len()`: where `split_at_index` cuts `s`.
pub open spec fn split_point(s: Seq<i32>, index: int) -> int {
    if index <= 0 {
        0
    } else if index >= s.len() {
        s.len() as int
    } else {
        index
    }
}

/// The values that `split_at_index(index)` puts in its first list.
pub open spec fn split_first(s: Seq<i32>, index: int) -> Seq<i32> {
    s.take(split_point(s, index))
}

/// The values that `split_at_index(index)` puts in its second list.
pub open spec fn split_second(s: Seq<i32>, index: int) -> Seq<i32> {
    s.skip(split_point(s, index))
}

/// `s` after `replace_n_item_with_value(n, value)`.
pub open spec fn replaced(s: Seq<i32>, n: int, value: i32) -> Seq<i32> {
    if 0 <= n < s.len() {
        s.update(n, value)
    } else {
        s
    }
}

/// Whether `insert_after_n(_, index)` succeeds on a list holding `s`.
pub open spec fn insert_after_succeeds(s: Seq<i32>, index: int) -> bool {
    index <= s.len() && (index >= 0 || s.len() > 0)
}

/// What a list holding `s` holds after `insert_after_n(value, index)`.
pub open spec fn inserted_after(s: Seq<i32>, value: i32, index: int) -> Seq<i32> {
    if !insert_after_succeeds(s, index) {
        s
    } else if index == s.len() {
        s.push(value)
    } else if index < 0 {
        s.insert(1, value)
    } else {
        s.insert(index + 1, value)
    }
}

/// The message with which `insert_after_n(_, index)` fails on a list holding `s`.
pub open spec fn insert_after_error(s: Seq<i32>, index: int) -> Seq<char> {
    if index > s.len() {
        no_item_message(index)
    } else {
        cannot_insert_message(index)
    }
}

} // verus!
