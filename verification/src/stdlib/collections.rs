//! Integer collections of the Chim standard library: a growable array,
//! a stack, a queue and an index-linked list.
use vstd::prelude::*;

verus! {

/// A growable array of integers. Slots past the length keep their old values
/// and are overwritten by later pushes.
pub struct Vec {
    data: std::vec::Vec<i64>,
    length: i64,
}

impl Vec {
    /// Backing slots, including stale ones past the length.
    pub closed spec fn store(&self) -> Seq<i64> { self.data@ }

    /// The current length.
    pub closed spec fn size(&self) -> int { self.length as int }

    /// The elements currently in the array.
    pub open spec fn items(&self) -> Seq<i64> { self.store().take(self.size()) }

    pub closed spec fn wf(&self) -> bool {
        0 <= self.length <= self.data@.len() && self.data@.len() < i64::MAX
    }

    pub fn new() -> (r: Vec)
        ensures
            r.wf(),
            r.size() == 0,
            r.store().len() == 0,
    {
        Vec { data: std::vec::Vec::new(), length: 0 }
    }

    pub fn len(&self) -> (r: i64)
        ensures
            r == self.size(),
    {
        self.length
    }

    pub fn is_empty(&self) -> (r: bool)
        ensures
            r == (self.size() == 0),
    {
        self.length == 0
    }

    /// Writes `value` into the slot at the current length and grows by one.
    pub fn push(&mut self, value: i64)
        requires
            old(self).wf(),
            old(self).store().len() < i64::MAX - 1,
        ensures
            final(self).wf(),
            final(self).size() == old(self).size() + 1,
            final(self).store() == (if old(self).size() < old(self).store().len() {
                old(self).store().update(old(self).size(), value)
            } else {
                old(self).store().push(value)
            }),
            final(self).items() == old(self).items().push(value),
    {
        let ghost before = self.data@;
        if (self.length as usize) < self.data.len() {
            self.data.set(self.length as usize, value);
        } else {
            self.data.push(value);
        }
        self.length = self.length + 1;
        assert(self.items() =~= before.take(old(self).size()).push(value));
    }

    /// Shrinks by one and returns the element that was last.
    pub fn pop(&mut self) -> (r: i64)
        requires
            old(self).wf(),
            old(self).size() > 0,
        ensures
            final(self).wf(),
            final(self).size() == old(self).size() - 1,
            final(self).store() == old(self).store(),
            r == old(self).store()[old(self).size() - 1],
            final(self).items() == old(self).items().drop_last(),
    {
        self.length = self.length - 1;
        assert(self.items() =~= old(self).items().drop_last());
        let _n = self.data.len();
        self.data[self.length as usize]
    }

    /// The slot at `index` (which may lie past the length).
    pub fn get(&self, index: i64) -> (r: i64)
        requires
            self.wf(),
            0 <= index < self.store().len(),
        ensures
            r == self.store()[index as int],
    {
        let _n = self.data.len();
        self.data[index as usize]
    }

    /// Overwrites the slot at `index`.
    pub fn set(&mut self, index: i64, value: i64)
        requires
            old(self).wf(),
            0 <= index < old(self).store().len(),
        ensures
            final(self).wf(),
            final(self).size() == old(self).size(),
            final(self).store() == old(self).store().update(index as int, value),
    {
        let _n = self.data.len();
        self.data.set(index as usize, value);
    }

    /// Sets the length to zero (the slots are kept).
    pub fn clear(&mut self)
        requires
            old(self).wf(),
        ensures
            final(self).wf(),
            final(self).size() == 0,
            final(self).store() == old(self).store(),
    {
        self.length = 0;
    }
}

/// A last-in first-out stack of integers.
pub struct Stack {
    data: Vec,
}

impl Stack {
    pub closed spec fn items(&self) -> Seq<i64> { self.data.items() }
    pub closed spec fn wf(&self) -> bool { self.data.wf() && self.data.store().len() < i64::MAX - 1 }
    pub closed spec fn slots(&self) -> int { self.data.store().len() as int }

    pub fn new() -> (r: Stack)
        ensures
            r.wf(),
            r.items().len() == 0,
            r.slots() == 0,
    {
        Stack { data: Vec::new() }
    }

    pub fn push(&mut self, value: i64)
        requires
            old(self).wf(),
            old(self).slots() < i64::MAX - 2,
        ensures
            final(self).wf(),
            final(self).items() == old(self).items().push(value),
            final(self).slots() <= old(self).slots() + 1,
    {
        self.data.push(value);
    }

    pub fn pop(&mut self) -> (r: i64)
        requires
            old(self).wf(),
            old(self).items().len() > 0,
        ensures
            final(self).wf(),
            r == old(self).items().last(),
            final(self).items() == old(self).items().drop_last(),
            final(self).slots() == old(self).slots(),
    {
        self.data.pop()
    }

    pub fn peek(&self) -> (r: i64)
        requires
            self.wf(),
            self.items().len() > 0,
        ensures
            r == self.items().last(),
    {
        self.data.get(self.data.len() - 1)
    }

    pub fn len(&self) -> (r: i64)
        requires
            self.wf(),
        ensures
            r == self.items().len(),
    {
        self.data.len()
    }

    pub fn is_empty(&self) -> (r: bool)
        requires
            self.wf(),
        ensures
            r == (self.items().len() == 0),
    {
        self.data.is_empty()
    }
}

/// A first-in first-out queue of integers; consumed slots are dropped once
/// they make up half of the storage.
pub struct Queue {
    data: Vec,
    head: i64,
}

impl Queue {
    pub closed spec fn items(&self) -> Seq<i64> { self.data.items().skip(self.head as int) }
    pub closed spec fn slots(&self) -> int { self.data.store().len() as int }
    pub closed spec fn wf(&self) -> bool {
        &&& self.data.wf()
        &&& 0 <= self.head <= self.data.size()
        &&& self.data.store().len() < 0x1000_0000_0000_0000
    }

    pub fn new() -> (r: Queue)
        ensures
            r.wf(),
            r.items().len() == 0,
            r.slots() == 0,
    {
        Queue { data: Vec::new(), head: 0 }
    }

    pub fn enqueue(&mut self, value: i64)
        requires
            old(self).wf(),
            old(self).slots() < 0x1000_0000_0000_0000 - 1,
        ensures
            final(self).wf(),
            final(self).items() == old(self).items().push(value),
            final(self).slots() <= old(self).slots() + 1,
    {
        self.data.push(value);
        assert(self.items() =~= old(self).items().push(value));
    }

    /// Removes and returns the front element.
    pub fn dequeue(&mut self) -> (r: i64)
        requires
            old(self).wf(),
            old(self).items().len() > 0,
        ensures
            final(self).wf(),
            r == old(self).items()[0],
            final(self).items() == old(self).items().drop_first(),
            final(self).slots() <= old(self).slots(),
    {
        let value = self.data.get(self.head);
        self.head = self.head + 1;
        if self.head * 2 >= self.data.len() {
            let ghost rest = self.data.items().skip(self.head as int);
            let mut new_data = Vec::new();
            let mut i = self.head;
            while i < self.data.len()
                invariant
                    self.data.wf(),
                    0 <= self.head <= i <= self.data.size(),
                    self.data.store().len() < 0x1000_0000_0000_0000,
                    new_data.wf(),
                    new_data.items() == self.data.items().subrange(self.head as int, i as int),
                    new_data.store().len() == i - self.head,
                decreases self.data.size() - i,
            {
                let x = self.data.get(i);
                new_data.push(x);
                i = i + 1;
                assert(new_data.items() =~= self.data.items().subrange(self.head as int, i as int));
            }
            assert(new_data.items() =~= rest);
            self.data = new_data;
            self.head = 0;
            assert(self.items() =~= rest);
        }
        assert(self.items() =~= old(self).items().drop_first());
        value
    }

    pub fn len(&self) -> (r: i64)
        requires
            self.wf(),
        ensures
            r == self.items().len(),
    {
        self.data.len() - self.head
    }

    pub fn is_empty(&self) -> (r: bool)
        requires
            self.wf(),
        ensures
            r == (self.items().len() == 0),
    {
        self.data.len() == self.head
    }
}

/// A node of the index-linked list: a value and the index of the next node (-1 for none).
#[derive(Clone, Copy)]
pub struct ListNode {
    pub value: i64,
    pub next: i64,
}

impl ListNode {
    pub open spec fn spec_value(&self) -> i64 { self.value }
    pub open spec fn spec_next(&self) -> i64 { self.next }
}

/// A singly linked list whose nodes live in an array and refer to each other by index.
/// A new node is always written to the slot at index `size`.
pub struct LinkedList {
    nodes: std::vec::Vec<ListNode>,
    head: i64,
    tail: i64,
    size: i64,
}

impl LinkedList {
    pub closed spec fn spec_nodes(&self) -> Seq<ListNode> { self.nodes@ }
    pub closed spec fn spec_head(&self) -> i64 { self.head }
    pub closed spec fn spec_tail(&self) -> i64 { self.tail }
    pub closed spec fn spec_size(&self) -> i64 { self.size }
    pub closed spec fn wf(&self) -> bool {
        &&& 0 <= self.size <= self.nodes@.len()
        &&& self.nodes@.len() < i64::MAX - 1
        &&& -1 <= self.head < self.nodes@.len()
        &&& -1 <= self.tail < self.nodes@.len()
    }

    pub fn new() -> (r: LinkedList)
        ensures
            r.wf(),
            r.spec_nodes().len() == 0,
            r.spec_head() == -1 && r.spec_tail() == -1 && r.spec_size() == 0,
    {
        LinkedList { nodes: std::vec::Vec::new(), head: -1, tail: -1, size: 0 }
    }

    fn write_slot(&mut self, node: ListNode)
        requires
            old(self).wf(),
            old(self).nodes@.len() < i64::MAX - 2,
        ensures
            final(self).head == old(self).head,
            final(self).tail == old(self).tail,
            final(self).size == old(self).size,
            final(self).nodes@ == (if old(self).size < old(self).nodes@.len() {
                old(self).nodes@.update(old(self).size as int, node)
            } else {
                old(self).nodes@.push(node)
            }),
    {
        let _n = self.nodes.len();
        if (self.size as usize) < self.nodes.len() {
            self.nodes.set(self.size as usize, node);
        } else {
            self.nodes.push(node);
        }
    }

    /// Writes a node pointing at the old head into slot `size` and makes it the head.
    pub fn push_front(&mut self, value: i64)
        requires
            old(self).wf(),
            old(self).spec_nodes().len() < i64::MAX - 2,
        ensures
            final(self).wf(),
            ({
                let node = ListNode { value, next: old(self).spec_head() };
                final(self).spec_nodes() == (if old(self).spec_size() < old(self).spec_nodes().len() {
                    old(self).spec_nodes().update(old(self).spec_size() as int, node)
                } else {
                    old(self).spec_nodes().push(node)
                })
            }),
            final(self).spec_head() == old(self).spec_size(),
            final(self).spec_tail() == (if old(self).spec_tail() == -1 { old(self).spec_size() } else { old(self).spec_tail() }),
            final(self).spec_size() == old(self).spec_size() + 1,
    {
        let new_node = ListNode { value, next: self.head };
        self.write_slot(new_node);
        self.head = self.size;
        if self.tail == -1 {
            self.tail = self.size;
        }
        self.size = self.size + 1;
    }

    /// Links the old tail to slot `size`, writes the node there and makes it the tail.
    pub fn push_back(&mut self, value: i64)
        requires
            old(self).wf(),
            old(self).spec_nodes().len() < i64::MAX - 2,
        ensures
            final(self).wf(),
            ({
                let linked = if old(self).spec_tail() != -1 {
                    old(self).spec_nodes().update(old(self).spec_tail() as int,
                        ListNode { value: old(self).spec_nodes()[old(self).spec_tail() as int].spec_value(), next: old(self).spec_size() })
                } else {
                    old(self).spec_nodes()
                };
                let node = ListNode { value, next: -1i64 };
                final(self).spec_nodes() == (if old(self).spec_size() < linked.len() {
                    linked.update(old(self).spec_size() as int, node)
                } else {
                    linked.push(node)
                })
            }),
            final(self).spec_tail() == old(self).spec_size(),
            final(self).spec_head() == (if old(self).spec_head() == -1 { old(self).spec_size() } else { old(self).spec_head() }),
            final(self).spec_size() == old(self).spec_size() + 1,
    {
        let new_node = ListNode { value, next: -1 };
        let _n = self.nodes.len();
        if self.tail != -1 {
            let t = self.tail as usize;
            let v = self.nodes[t].value;
            self.nodes.set(t, ListNode { value: v, next: self.size });
        }
        self.write_slot(new_node);
        self.tail = self.size;
        if self.head == -1 {
            self.head = self.size;
        }
        self.size = self.size + 1;
    }

    /// Returns the head value and moves the head to its successor.
    pub fn pop_front(&mut self) -> (r: i64)
        requires
            old(self).wf(),
            old(self).spec_head() >= 0,
            old(self).spec_size() > 0,
            old(self).spec_nodes()[old(self).spec_head() as int].spec_next() < old(self).spec_nodes().len(),
            old(self).spec_nodes()[old(self).spec_head() as int].spec_next() >= -1,
        ensures
            final(self).wf(),
            r == old(self).spec_nodes()[old(self).spec_head() as int].spec_value(),
            final(self).spec_head() == old(self).spec_nodes()[old(self).spec_head() as int].spec_next(),
            final(self).spec_tail() == (if final(self).spec_head() == -1 { -1i64 } else { old(self).spec_tail() }),
            final(self).spec_size() == old(self).spec_size() - 1,
            final(self).spec_nodes() == old(self).spec_nodes(),
    {
        let _n = self.nodes.len();
        let h = self.head as usize;
        let value = self.nodes[h].value;
        self.head = self.nodes[h].next;
        if self.head == -1 {
            self.tail = -1;
        }
        self.size = self.size - 1;
        value
    }

    pub fn len(&self) -> (r: i64)
        ensures
            r == self.spec_size(),
    {
        self.size
    }

    pub fn is_empty(&self) -> (r: bool)
        ensures
            r == (self.spec_size() == 0),
    {
        self.size == 0
    }
}

} // verus!
