use vstd::prelude::*;

use crate::value::{child_values, children, points_to, value_ref, HeapValue, Value};

verus! {

/// An address of a slot on the heap.
#[derive(Debug, Clone, Copy, PartialEq, Eq, Structural)]
pub struct HeapAddress(pub usize);

/// A slot of heap memory: free, with the index of the next free slot, or
/// filled with a value.
#[derive(Debug, Clone, PartialEq, Eq)]
pub enum MemorySlot {
    Free { next_free: Option<usize> },
    Filled(HeapValue),
}

/// Why [`Heap::get`] failed.
#[derive(Debug, Clone, Copy, PartialEq, Eq, Structural)]
pub enum HeapGetError {
    /// The address lies past the end of the heap.
    OutOfBounds,
    /// The slot at the address is free.
    SlotFreed,
}

/// Why [`Heap::allocate`] failed.
#[derive(Debug, Clone, Copy, PartialEq, Eq, Structural)]
pub enum HeapAllocError {
    /// No slot is free.
    OutOfNoMemory,
}

/// A slot-based arena with an intrusive free list and mark-sweep collection.
#[derive(Debug)]
pub struct Heap {
    mem: Vec<MemorySlot>,
    /// One past the highest filled slot.
    used: usize,
    /// The lowest free slot.
    first_free: Option<usize>,
}

pub open spec fn slot_free(mem: Seq<MemorySlot>, i: int) -> bool {
    0 <= i < mem.len() && mem[i] is Free
}

pub open spec fn slot_filled(mem: Seq<MemorySlot>, i: int) -> bool {
    0 <= i < mem.len() && mem[i] is Filled
}

/// `next` is the lowest free slot at or after `from`, or `None` if there is none.
pub open spec fn next_free_ok(mem: Seq<MemorySlot>, from: int, next: Option<usize>) -> bool {
    match next {
        None => forall|j: int| from <= j < mem.len() ==> !slot_free(mem, j),
        Some(n) => from <= n && slot_free(mem, n as int) && forall|j: int|
            from <= j < n ==> !slot_free(mem, j),
    }
}

/// `used` is one past the highest filled slot.
pub open spec fn used_ok(mem: Seq<MemorySlot>, used: usize) -> bool {
    &&& used <= mem.len()
    &&& forall|i: int| used <= i < mem.len() ==> !slot_filled(mem, i)
    &&& used == 0 || slot_filled(mem, used - 1)
}

/// The free list threads the free slots in ascending order.
pub open spec fn links_ok(mem: Seq<MemorySlot>) -> bool {
    forall|i: int|
        #![trigger mem[i]]
        slot_free(mem, i) ==> next_free_ok(mem, i + 1, mem[i]->next_free)
}

/// The heap slot `a` holds `v`.
pub open spec fn holds(mem: Seq<MemorySlot>, a: usize, v: HeapValue) -> bool {
    slot_filled(mem, a as int) && mem[a as int] == MemorySlot::Filled(v)
}

/// The values held directly by slot `a`.
pub open spec fn slot_children(mem: Seq<MemorySlot>, a: usize) -> Seq<Value> {
    match mem[a as int] {
        MemorySlot::Filled(h) => children(h),
        MemorySlot::Free { .. } => seq![],
    }
}

/// Slot `a` holds a value that refers to slot `b`.
pub open spec fn edge(mem: Seq<MemorySlot>, a: usize, b: usize) -> bool {
    exists|k: int|
        0 <= k < slot_children(mem, a).len() && #[trigger] points_to(slot_children(mem, a)[k], b)
}

/// Some root refers to slot `a`.
pub open spec fn is_root(roots: Seq<Value>, a: usize) -> bool {
    exists|k: int| 0 <= k < roots.len() && #[trigger] points_to(roots[k], a)
}

/// A chain of filled slots that starts at a root and follows references.
pub open spec fn path_ok(mem: Seq<MemorySlot>, roots: Seq<Value>, p: Seq<usize>) -> bool {
    &&& p.len() >= 1
    &&& is_root(roots, p[0])
    &&& forall|k: int| 0 <= k < p.len() ==> slot_filled(mem, #[trigger] p[k] as int)
    &&& forall|k: int| 0 <= k < p.len() - 1 ==> #[trigger] edge(mem, p[k], p[k + 1])
}

/// Slot `a` can be reached from the roots through filled slots.
pub open spec fn reachable(mem: Seq<MemorySlot>, roots: Seq<Value>, a: usize) -> bool {
    exists|p: Seq<usize>| #[trigger] path_ok(mem, roots, p) && p.last() == a
}

/// What a collection does to the slots: reachable filled slots keep their
/// value, and every other slot is free.
pub open spec fn collected(before: Seq<MemorySlot>, after: Seq<MemorySlot>, roots: Seq<Value>) -> bool {
    &&& after.len() == before.len()
    &&& forall|a: usize|
        a < before.len() ==> {
            &&& slot_filled(before, a as int) && reachable(before, roots, a) ==> after[a as int]
                == before[a as int]
            &&& !(slot_filled(before, a as int) && reachable(before, roots, a)) ==> slot_free(
                after,
                a as int,
            )
        }
}

impl Heap {
    pub closed spec fn slots(&self) -> Seq<MemorySlot> {
        self.mem@
    }

    pub closed spec fn used_spec(&self) -> usize {
        self.used
    }

    pub closed spec fn first_free_spec(&self) -> Option<usize> {
        self.first_free
    }

    /// The heap's invariant: `used` bounds the filled slots, and the free list
    /// starts at the lowest free slot and threads all free slots in order.
    pub open spec fn wf(&self) -> bool {
        &&& used_ok(self.slots(), self.used_spec())
        &&& next_free_ok(self.slots(), 0, self.first_free_spec())
        &&& links_ok(self.slots())
    }

    /// Creates a heap of `size` free slots.
    pub fn new(size: usize) -> (r: Heap)
        ensures
            r.wf(),
            r.slots().len() == size,
            forall|i: int| 0 <= i < size ==> slot_free(r.slots(), i),
            r.used_spec() == 0,
            r.first_free_spec() == (if size == 0 { None } else { Some(0usize) }),
    {
        let mut mem: Vec<MemorySlot> = Vec::new();
        let mut i: usize = 0;
        while i < size
            invariant
                i <= size,
                mem@.len() == i,
                forall|j: int|
                    0 <= j < i ==> mem@[j] == (MemorySlot::Free {
                        next_free: if j + 1 == size { None } else { Some((j + 1) as usize) },
                    }),
            decreases size - i,
        {
            let next_free = if i + 1 == size { None } else { Some(i + 1) };
            mem.push(MemorySlot::Free { next_free });
            i = i + 1;
        }
        let first_free = if size == 0 { None } else { Some(0) };
        let r = Heap { mem, used: 0, first_free };
        assert(links_ok(r.mem@));
        r
    }

    /// The value at an address.
    pub fn get(&self, address: HeapAddress) -> (r: Result<&HeapValue, HeapGetError>)
        ensures
            address.0 >= self.slots().len() ==> r == Err::<&HeapValue, _>(
                HeapGetError::OutOfBounds,
            ),
            slot_free(self.slots(), address.0 as int) ==> r == Err::<&HeapValue, _>(
                HeapGetError::SlotFreed,
            ),
            slot_filled(self.slots(), address.0 as int) ==> (r matches Ok(v) && holds(
                self.slots(),
                address.0,
                *v,
            )),
    {
        if address.0 >= self.mem.len() {
            return Err(HeapGetError::OutOfBounds);
        }
        match &self.mem[address.0] {
            MemorySlot::Filled(v) => Ok(v),
            MemorySlot::Free { .. } => Err(HeapGetError::SlotFreed),
        }
    }

    /// Replaces the value in a filled slot.
    pub fn set(&mut self, address: HeapAddress, value: HeapValue) -> (r: Result<(), HeapGetError>)
        requires
            old(self).wf(),
        ensures
            final(self).wf(),
            address.0 >= old(self).slots().len() ==> r == Err::<(), _>(HeapGetError::OutOfBounds)
                && *final(self) == *old(self),
            slot_free(old(self).slots(), address.0 as int) ==> r == Err::<(), _>(
                HeapGetError::SlotFreed,
            ) && *final(self) == *old(self),
            slot_filled(old(self).slots(), address.0 as int) ==> r is Ok && final(self).slots()
                == old(self).slots().update(address.0 as int, MemorySlot::Filled(value))
                && final(self).used_spec() == old(self).used_spec()
                && final(self).first_free_spec() == old(self).first_free_spec(),
    {
        if address.0 >= self.mem.len() {
            return Err(HeapGetError::OutOfBounds);
        }
        let filled = match &self.mem[address.0] {
            MemorySlot::Filled(_) => true,
            MemorySlot::Free { .. } => false,
        };
        if !filled {
            return Err(HeapGetError::SlotFreed);
        }
        let ghost before = self.mem@;
        self.mem.set(address.0, MemorySlot::Filled(value));
        proof {
            assert forall|i: int| slot_free(self.mem@, i) <==> slot_free(before, i) by {}
            assert forall|i: int| slot_filled(self.mem@, i) <==> slot_filled(before, i) by {}
            assert forall|i: int|
                #![trigger self.mem@[i]]
                slot_free(self.mem@, i) implies next_free_ok(
                self.mem@,
                i + 1,
                self.mem@[i]->next_free,
            ) by {
                assert(before[i] == self.mem@[i]);
            }
            assert(next_free_ok(self.mem@, 0, self.first_free));
            if self.used > 0 {
                assert(slot_filled(before, self.used - 1));
                assert(slot_filled(self.mem@, self.used - 1));
            }
            assert(self.used <= self.mem@.len());
            assert forall|i: int| self.used <= i < self.mem@.len() implies !slot_filled(
                self.mem@,
                i,
            ) by {
                assert(!slot_filled(before, i));
            }
            assert(used_ok(self.mem@, self.used));
        }
        Ok(())
    }

    /// Puts a value in a filled slot and hands back the value it held.
    pub fn replace(&mut self, address: HeapAddress, value: HeapValue) -> (r: Result<
        HeapValue,
        HeapGetError,
    >)
        requires
            old(self).wf(),
        ensures
            final(self).wf(),
            address.0 >= old(self).slots().len() ==> r == Err::<HeapValue, _>(
                HeapGetError::OutOfBounds,
            ) && *final(self) == *old(self),
            slot_free(old(self).slots(), address.0 as int) ==> r == Err::<HeapValue, _>(
                HeapGetError::SlotFreed,
            ) && *final(self) == *old(self),
            slot_filled(old(self).slots(), address.0 as int) ==> (r matches Ok(v) && holds(
                old(self).slots(),
                address.0,
                v,
            )) && final(self).slots() == old(self).slots().update(
                address.0 as int,
                MemorySlot::Filled(value),
            ) && final(self).used_spec() == old(self).used_spec()
                && final(self).first_free_spec() == old(self).first_free_spec(),
    {
        if address.0 >= self.mem.len() {
            return Err(HeapGetError::OutOfBounds);
        }
        let filled = match &self.mem[address.0] {
            MemorySlot::Filled(_) => true,
            MemorySlot::Free { .. } => false,
        };
        if !filled {
            return Err(HeapGetError::SlotFreed);
        }
        let ghost before = self.mem@;
        let mut slot = MemorySlot::Filled(value);
        core::mem::swap(&mut self.mem[address.0], &mut slot);
        proof {
            assert(self.mem@ == before.update(address.0 as int, MemorySlot::Filled(value)));
            assert forall|i: int| slot_free(self.mem@, i) <==> slot_free(before, i) by {}
            assert forall|i: int| slot_filled(self.mem@, i) <==> slot_filled(before, i) by {}
            assert forall|i: int|
                #![trigger self.mem@[i]]
                slot_free(self.mem@, i) implies next_free_ok(
                self.mem@,
                i + 1,
                self.mem@[i]->next_free,
            ) by {
                assert(before[i] == self.mem@[i]);
            }
            assert(next_free_ok(self.mem@, 0, self.first_free));
            if self.used > 0 {
                assert(slot_filled(before, self.used - 1));
            }
            assert forall|i: int| self.used <= i < self.mem@.len() implies !slot_filled(
                self.mem@,
                i,
            ) by {
                assert(!slot_filled(before, i));
            }
        }
        match slot {
            MemorySlot::Filled(v) => Ok(v),
            MemorySlot::Free { .. } => Err(HeapGetError::SlotFreed),
        }
    }

    /// Whether no slot is free.
    pub fn is_full(&self) -> (r: bool)
        requires
            self.wf(),
        ensures
            r == (self.first_free_spec() is None),
            r <==> forall|i: int| 0 <= i < self.slots().len() ==> !slot_free(self.slots(), i),
    {
        self.first_free.is_none()
    }

    /// One past the highest filled slot.
    pub fn used(&self) -> (r: usize)
        ensures
            r == self.used_spec(),
    {
        self.used
    }

    /// The lowest free slot, which the next allocation takes.
    pub fn first_free(&self) -> (r: Option<usize>)
        ensures
            r == self.first_free_spec(),
    {
        self.first_free
    }

    /// The number of slots.
    pub fn capacity(&self) -> (r: usize)
        ensures
            r == self.slots().len(),
    {
        self.mem.len()
    }

    /// The slot at an index.
    pub fn slot(&self, index: usize) -> (r: Option<&MemorySlot>)
        ensures
            index < self.slots().len() ==> r == Some(&self.slots()[index as int]),
            index >= self.slots().len() ==> r is None,
    {
        if index < self.mem.len() {
            Some(&self.mem[index])
        } else {
            None
        }
    }

    /// Puts a value in the lowest free slot.
    pub fn allocate(&mut self, value: HeapValue) -> (r: Result<HeapAddress, HeapAllocError>)
        requires
            old(self).wf(),
        ensures
            final(self).wf(),
            match old(self).first_free_spec() {
                None => r == Err::<HeapAddress, _>(HeapAllocError::OutOfNoMemory) && *final(self)
                    == *old(self),
                Some(f) => r == Ok::<_, HeapAllocError>(HeapAddress(f)) && final(self).slots()
                    == old(self).slots().update(f as int, MemorySlot::Filled(value))
                    && final(self).used_spec() == (if f < old(self).used_spec() {
                    old(self).used_spec()
                } else {
                    (f + 1) as usize
                }),
            },
    {
        let address = match self.first_free {
            Some(x) => x,
            None => return Err(HeapAllocError::OutOfNoMemory),
        };
        let ghost before = self.mem@;
        assert(slot_free(before, address as int));
        let next = match &self.mem[address] {
            MemorySlot::Free { next_free } => *next_free,
            MemorySlot::Filled(_) => None,
        };
        self.first_free = next;
        let len = self.mem.len();
        if address >= self.used && address < len {
            self.used = address + 1;
        }
        self.mem.set(address, MemorySlot::Filled(value));
        proof {
            let m = self.mem@;
            assert(before[address as int] is Free);
            assert(next_free_ok(before, address + 1, next));
            assert forall|i: int| i != address implies (slot_free(m, i) <==> slot_free(before, i)) by {}
            assert(next_free_ok(m, 0, next));
            assert forall|i: int|
                #![trigger m[i]]
                slot_free(m, i) implies next_free_ok(m, i + 1, m[i]->next_free) by {
                assert(before[i] == m[i]);
                assert(next_free_ok(before, i + 1, before[i]->next_free));
                assert(i > address);
            }
            assert forall|i: int| self.used <= i < m.len() implies !slot_filled(m, i) by {
                assert(!slot_filled(before, i));
            }
        }
        Ok(HeapAddress(address))
    }
}


/// The number of unset marks.
pub open spec fn count_unmarked(m: Seq<bool>) -> nat
    decreases m.len(),
{
    if m.len() == 0 {
        0
    } else {
        count_unmarked(m.drop_last()) + if m.last() {
            0nat
        } else {
            1nat
        }
    }
}

proof fn lemma_count_unmarked_set(m: Seq<bool>, i: int)
    requires
        0 <= i < m.len(),
        !m[i],
    ensures
        count_unmarked(m.update(i, true)) + 1 == count_unmarked(m),
    decreases m.len(),
{
    if i == m.len() - 1 {
        assert(m.update(i, true).drop_last() =~= m.drop_last());
    } else {
        assert(m.update(i, true).drop_last() =~= m.drop_last().update(i, true));
        lemma_count_unmarked_set(m.drop_last(), i);
    }
}

proof fn lemma_root_reachable(mem: Seq<MemorySlot>, roots: Seq<Value>, a: usize)
    requires
        is_root(roots, a),
        slot_filled(mem, a as int),
    ensures
        reachable(mem, roots, a),
{
    let p = seq![a];
    assert(path_ok(mem, roots, p));
}

proof fn lemma_edge_reachable(mem: Seq<MemorySlot>, roots: Seq<Value>, a: usize, b: usize)
    requires
        reachable(mem, roots, a),
        edge(mem, a, b),
        slot_filled(mem, b as int),
    ensures
        reachable(mem, roots, b),
{
    let p = choose|p: Seq<usize>| #[trigger] path_ok(mem, roots, p) && p.last() == a;
    let q = p.push(b);
    assert forall|k: int| 0 <= k < q.len() - 1 implies #[trigger] edge(mem, q[k], q[k + 1]) by {
        if k < p.len() - 1 {
            assert(q[k] == p[k] && q[k + 1] == p[k + 1]);
        } else {
            assert(q[k] == a && q[k + 1] == b);
        }
    }
    assert forall|k: int| 0 <= k < q.len() implies slot_filled(mem, #[trigger] q[k] as int) by {
        if k < p.len() {
            assert(q[k] == p[k]);
        }
    }
    assert(path_ok(mem, roots, q));
}

/// A set of slots that holds every filled root and is closed under
/// references between filled slots holds every reachable slot.
proof fn lemma_closed_holds_reachable(
    mem: Seq<MemorySlot>,
    roots: Seq<Value>,
    marks: Seq<bool>,
    a: usize,
)
    requires
        marks.len() == mem.len(),
        forall|r: usize| is_root(roots, r) && slot_filled(mem, r as int) ==> marks[r as int],
        forall|x: usize, y: usize|
            #![trigger edge(mem, x, y), marks[x as int]]
            x < mem.len() && marks[x as int] && edge(mem, x, y) && slot_filled(mem, y as int)
                ==> marks[y as int],
        reachable(mem, roots, a),
    ensures
        marks[a as int],
{
    let p = choose|p: Seq<usize>| #[trigger] path_ok(mem, roots, p) && p.last() == a;
    lemma_path_marked(mem, roots, marks, p, p.len() - 1);
}

proof fn lemma_path_marked(
    mem: Seq<MemorySlot>,
    roots: Seq<Value>,
    marks: Seq<bool>,
    p: Seq<usize>,
    k: int,
)
    requires
        marks.len() == mem.len(),
        forall|r: usize| is_root(roots, r) && slot_filled(mem, r as int) ==> marks[r as int],
        forall|x: usize, y: usize|
            #![trigger edge(mem, x, y), marks[x as int]]
            x < mem.len() && marks[x as int] && edge(mem, x, y) && slot_filled(mem, y as int)
                ==> marks[y as int],
        path_ok(mem, roots, p),
        0 <= k < p.len(),
    ensures
        marks[p[k] as int],
    decreases k,
{
    assert(slot_filled(mem, p[k] as int));
    if k > 0 {
        lemma_path_marked(mem, roots, marks, p, k - 1);
        assert(edge(mem, p[k - 1], p[(k - 1) + 1]));
        assert(slot_filled(mem, p[k - 1] as int));
    }
}

/// Pushes onto `w` the slots that the values refer to.
fn push_refs(vs: &Vec<Value>, w: &mut Vec<usize>)
    ensures
        final(w)@.len() >= old(w)@.len(),
        final(w)@.subrange(0, old(w)@.len() as int) == old(w)@,
        forall|k: int, a: usize|
            0 <= k < vs@.len() && #[trigger] points_to(vs@[k], a) ==> final(w)@.contains(a),
        forall|j: int|
            old(w)@.len() <= j < final(w)@.len() ==> is_root(vs@, #[trigger] final(w)@[j]),
{
    let ghost start = w@;
    let mut i: usize = 0;
    while i < vs.len()
        invariant
            i <= vs@.len(),
            w@.len() >= start.len(),
            w@.subrange(0, start.len() as int) == start,
            forall|k: int, a: usize|
                0 <= k < i && #[trigger] points_to(vs@[k], a) ==> w@.contains(a),
            forall|j: int| start.len() <= j < w@.len() ==> is_root(vs@, #[trigger] w@[j]),
        decreases vs@.len() - i,
    {
        let ghost before = w@;
        match value_ref(&vs[i]) {
            Some(a) => {
                w.push(a);
                proof {
                    assert(w@.subrange(0, start.len() as int) =~= before.subrange(
                        0,
                        start.len() as int,
                    ));
                    assert(w@[w@.len() - 1] == a);
                    assert forall|k: int, b: usize|
                        0 <= k < i + 1 && #[trigger] points_to(vs@[k], b) implies w@.contains(
                        b,
                    ) by {
                        if k < i {
                            let j = choose|j: int| 0 <= j < before.len() && before[j] == b;
                            assert(w@[j] == b);
                        } else {
                            assert(w@[w@.len() - 1] == b);
                        }
                    }
                    assert forall|j: int| start.len() <= j < w@.len() implies is_root(
                        vs@,
                        #[trigger] w@[j],
                    ) by {
                        if j < before.len() {
                            assert(w@[j] == before[j]);
                        } else {
                            assert(points_to(vs@[i as int], w@[j]));
                        }
                    }
                }
            },
            None => {
                assert(w@ == before);
            },
        }
        i = i + 1;
    }
}

impl Heap {
    /// Marks the slots that can be reached from the roots.
    fn mark(&self, roots: &Vec<Value>) -> (marks: Vec<bool>)
        requires
            self.wf(),
        ensures
            marks@.len() == self.slots().len(),
            forall|a: usize|
                a < self.slots().len() ==> (marks@[a as int] <==> (slot_filled(
                    self.slots(),
                    a as int,
                ) && reachable(self.slots(), roots@, a))),
    {
        let ghost mem = self.mem@;
        let n = self.mem.len();
        let mut marks: Vec<bool> = Vec::new();
        let mut i: usize = 0;
        while i < n
            invariant
                i <= n,
                n == mem.len(),
                marks@.len() == i,
                forall|k: int| 0 <= k < i ==> !marks@[k],
            decreases n - i,
        {
            marks.push(false);
            i = i + 1;
        }
        let mut w: Vec<usize> = Vec::new();
        push_refs(roots, &mut w);
        proof {
            assert forall|j: int|
                0 <= j < w@.len() && slot_filled(mem, #[trigger] w@[j] as int) implies reachable(
                mem,
                roots@,
                w@[j],
            ) by {
                lemma_root_reachable(mem, roots@, w@[j]);
            }
        }
        while w.len() > 0
            invariant
                n == mem.len(),
                mem == self.mem@,
                marks@.len() == n,
                forall|a: int|
                    0 <= a < n && #[trigger] marks@[a] ==> slot_filled(mem, a) && reachable(
                        mem,
                        roots@,
                        a as usize,
                    ),
                forall|j: int|
                    0 <= j < w@.len() && slot_filled(mem, #[trigger] w@[j] as int) ==> reachable(
                        mem,
                        roots@,
                        w@[j],
                    ),
                forall|x: usize, y: usize|
                    #![trigger edge(mem, x, y), marks@[x as int]]
                    x < n && marks@[x as int] && edge(mem, x, y) && slot_filled(mem, y as int)
                        ==> marks@[y as int] || w@.contains(y),
                forall|r: usize|
                    is_root(roots@, r) && slot_filled(mem, r as int) ==> marks@[r as int]
                        || w@.contains(r),
            decreases count_unmarked(marks@), w@.len(),
        {
            let ghost w0 = w@;
            let a = w.pop().unwrap();
            proof {
                assert(w0 == w@.push(a));
                assert forall|y: usize| w0.contains(y) && y != a implies w@.contains(y) by {
                    let j = choose|j: int| 0 <= j < w0.len() && w0[j] == y;
                    assert(j < w@.len());
                    assert(w@[j] == y);
                }
            }
            if a < n && !marks[a] {
                let filled = match &self.mem[a] {
                    MemorySlot::Filled(_) => true,
                    MemorySlot::Free { .. } => false,
                };
                if filled {
                    let kids = match &self.mem[a] {
                        MemorySlot::Filled(h) => child_values(h),
                        MemorySlot::Free { .. } => Vec::new(),
                    };
                    assert(kids@ == slot_children(mem, a));
                    let ghost marks0 = marks@;
                    let ghost w1 = w@;
                    marks.set(a, true);
                    proof {
                        lemma_count_unmarked_set(marks0, a as int);
                        assert(w0[w0.len() - 1] == a);
                        assert(reachable(mem, roots@, a));
                    }
                    push_refs(&kids, &mut w);
                    proof {
                        assert forall|y: usize| w1.contains(y) implies w@.contains(y) by {
                            let j = choose|j: int| 0 <= j < w1.len() && w1[j] == y;
                            assert(w@.subrange(0, w1.len() as int)[j] == y);
                        }
                        assert forall|j: int|
                            0 <= j < w@.len() && slot_filled(
                                mem,
                                #[trigger] w@[j] as int,
                            ) implies reachable(mem, roots@, w@[j]) by {
                            if j < w1.len() {
                                assert(w@.subrange(0, w1.len() as int)[j] == w1[j]);
                                assert(w0[j] == w1[j]);
                            } else {
                                let k = choose|k: int|
                                    0 <= k < kids@.len() && #[trigger] points_to(kids@[k], w@[j]);
                                assert(points_to(slot_children(mem, a)[k], w@[j]));
                                assert(edge(mem, a, w@[j]));
                                lemma_edge_reachable(mem, roots@, a, w@[j]);
                            }
                        }
                        assert forall|x: usize, y: usize|
                            #![trigger edge(mem, x, y), marks@[x as int]]
                            x < n && marks@[x as int] && edge(mem, x, y) && slot_filled(
                                mem,
                                y as int,
                            ) implies marks@[y as int] || w@.contains(y) by {
                            if x == a {
                                let k = choose|k: int|
                                    0 <= k < slot_children(mem, a).len() && #[trigger] points_to(
                                        slot_children(mem, a)[k],
                                        y,
                                    );
                                assert(points_to(kids@[k], y));
                            } else {
                                assert(marks0[x as int]);
                                if !marks@[y as int] {
                                    assert(w0.contains(y));
                                }
                            }
                        }
                        assert forall|r: usize|
                            is_root(roots@, r) && slot_filled(mem, r as int) implies marks@[r as int]
                            || w@.contains(r) by {
                            if !marks@[r as int] {
                                assert(w0.contains(r));
                            }
                        }
                    }
                }
            }
        }
        proof {
            assert forall|a: usize|
                a < n && slot_filled(mem, a as int) && reachable(mem, roots@, a) implies marks@[a as int] by {
                lemma_closed_holds_reachable(mem, roots@, marks@, a);
            }
        }
        marks
    }
}

impl Heap {
    /// Frees every filled slot whose mark is unset, threads the free list
    /// through all free slots in ascending order, and lowers `used` to one past
    /// the highest slot still filled.
    fn sweep(&mut self, marks: &Vec<bool>)
        requires
            old(self).wf(),
            marks@.len() == old(self).slots().len(),
        ensures
            final(self).wf(),
            final(self).slots().len() == old(self).slots().len(),
            forall|a: int|
                0 <= a < old(self).slots().len() ==> {
                    &&& slot_filled(old(self).slots(), a) && marks@[a] ==> final(self).slots()[a]
                        == old(self).slots()[a]
                    &&& !(slot_filled(old(self).slots(), a) && marks@[a]) ==> slot_free(
                        final(self).slots(),
                        a,
                    )
                },
    {
        let ghost start = self.mem@;
        let used = self.used;
        let len = self.mem.len();
        let mut first: Option<usize> = None;
        let mut last: Option<usize> = None;
        let mut new_used: usize = 0;
        let mut i: usize = 0;
        while i < used
            invariant
                used == old(self).used,
                start == old(self).mem@,
                used_ok(start, used),
                links_ok(start),
                len == start.len(),
                marks@.len() == len,
                i <= used,
                self.mem@.len() == len,
                forall|k: int| i <= k < len ==> #[trigger] self.mem@[k] == start[k],
                forall|k: int|
                    0 <= k < i ==> {
                        &&& slot_filled(start, k) && marks@[k] ==> #[trigger] self.mem@[k]
                            == start[k]
                        &&& !(slot_filled(start, k) && marks@[k]) ==> slot_free(self.mem@, k)
                    },
                forall|k: int|
                    #![trigger self.mem@[k]]
                    0 <= k < i && slot_free(self.mem@, k) && last != Some(k as usize)
                        ==> next_free_ok(self.mem@, k + 1, self.mem@[k]->next_free),
                last is None ==> first is None && forall|k: int|
                    0 <= k < i ==> !slot_free(self.mem@, k),
                last matches Some(p) ==> p < i && slot_free(self.mem@, p as int) && forall|k: int|
                    p < k < i ==> !slot_free(self.mem@, k),
                first matches Some(f) ==> f < i && slot_free(self.mem@, f as int) && forall|k: int|
                    0 <= k < f ==> !slot_free(self.mem@, k),
                last is Some ==> first is Some,
                new_used <= i,
                forall|k: int| new_used <= k < i ==> !slot_filled(self.mem@, k),
                new_used == 0 || slot_filled(self.mem@, new_used - 1),
            decreases used - i,
        {
            let keep = match &self.mem[i] {
                MemorySlot::Filled(_) => marks[i],
                MemorySlot::Free { .. } => false,
            };
            if keep {
                new_used = i + 1;
            } else {
                let ghost before = self.mem@;
                self.mem.set(i, MemorySlot::Free { next_free: None });
                match last {
                    Some(p) => {
                        self.mem.set(p, MemorySlot::Free { next_free: Some(i) });
                        proof {
                            let m = self.mem@;
                            assert forall|k: int|
                                #![trigger m[k]]
                                0 <= k < i + 1 && slot_free(m, k) && Some(i) != Some(
                                    k as usize,
                                ) implies next_free_ok(m, k + 1, m[k]->next_free) by {
                                if k != p {
                                    assert(before[k] == m[k]);
                                    assert(slot_free(before, k));
                                    assert(next_free_ok(before, k + 1, before[k]->next_free));
                                    assert(k < p);
                                }
                            }
                        }
                    },
                    None => {
                        first = Some(i);
                    },
                }
                last = Some(i);
                proof {
                    assert forall|k: int| new_used <= k < i + 1 implies !slot_filled(
                        self.mem@,
                        k,
                    ) by {
                        if k < i && !(last == Some(k as usize)) {
                            assert(!slot_filled(before, k));
                        }
                    }
                }
            }
            i = i + 1;
        }
        let tail = if used < len { Some(used) } else { None };
        let ghost before = self.mem@;
        match last {
            Some(p) => {
                self.mem.set(p, MemorySlot::Free { next_free: tail });
            },
            None => {
                first = tail;
            },
        }
        self.first_free = first;
        self.used = new_used;
        proof {
            let m = self.mem@;
            assert forall|k: int| 0 <= k < len implies (slot_free(m, k) <==> slot_free(before, k)) by {}
            assert forall|k: int| used <= k < len implies slot_free(m, k) && m[k] == start[k] by {
                assert(!slot_filled(start, k));
            }
            assert forall|k: int|
                #![trigger m[k]]
                slot_free(m, k) implies next_free_ok(m, k + 1, m[k]->next_free) by {
                if k >= used {
                    assert(next_free_ok(start, k + 1, start[k]->next_free));
                    assert forall|j: int| k < j < len implies (slot_free(m, j) <==> slot_free(
                        start,
                        j,
                    )) by {}
                } else if last != Some(k as usize) {
                    assert(before[k] == m[k]);
                    assert(next_free_ok(before, k + 1, before[k]->next_free));
                }
            }
            assert(next_free_ok(m, 0, first));
            assert forall|k: int| new_used <= k < len implies !slot_filled(m, k) by {
                if k >= used {
                    assert(slot_free(m, k));
                } else {
                    assert(!slot_filled(before, k));
                    assert(slot_free(m, k) == slot_free(before, k));
                }
            }
            if new_used > 0 {
                assert(slot_filled(before, new_used - 1));
            }
        }
    }

    /// Runs a garbage collection: frees every filled slot that cannot be
    /// reached from the roots and keeps every other slot as it is.
    /// Hands back how many slots it kept.
    pub fn collect(&mut self, roots: &Vec<Value>) -> (kept: usize)
        requires
            old(self).wf(),
        ensures
            final(self).wf(),
            collected(old(self).slots(), final(self).slots(), roots@),
            kept <= final(self).slots().len(),
    {
        let marks = self.mark(roots);
        let mut kept: usize = 0;
        let mut i: usize = 0;
        while i < marks.len()
            invariant
                i <= marks@.len(),
                kept <= i,
            decreases marks@.len() - i,
        {
            if marks[i] {
                kept = kept + 1;
            }
            i = i + 1;
        }
        self.sweep(&marks);
        proof {
            assert forall|a: usize| a < old(self).slots().len() implies {
                &&& slot_filled(old(self).slots(), a as int) && reachable(
                    old(self).slots(),
                    roots@,
                    a,
                ) ==> self.slots()[a as int] == old(self).slots()[a as int]
                &&& !(slot_filled(old(self).slots(), a as int) && reachable(
                    old(self).slots(),
                    roots@,
                    a,
                )) ==> slot_free(self.slots(), a as int)
            } by {
                assert(marks@[a as int] <==> (slot_filled(old(self).slots(), a as int) && reachable(
                    old(self).slots(),
                    roots@,
                    a,
                )));
            }
        }
        kept
    }
}

proof fn lemma_next_free_unique(
    m1: Seq<MemorySlot>,
    m2: Seq<MemorySlot>,
    from: int,
    x: Option<usize>,
    y: Option<usize>,
)
    requires
        m1.len() == m2.len(),
        forall|i: int| slot_free(m1, i) <==> slot_free(m2, i),
        next_free_ok(m1, from, x),
        next_free_ok(m2, from, y),
    ensures
        x == y,
{
    match (x, y) {
        (Some(a), Some(b)) => {
            assert(slot_free(m1, a as int) && slot_free(m1, b as int));
        },
        (Some(a), None) => {
            assert(slot_free(m2, a as int));
        },
        (None, Some(b)) => {
            assert(slot_free(m1, b as int));
        },
        (None, None) => {},
    }
}

proof fn lemma_used_unique(m1: Seq<MemorySlot>, m2: Seq<MemorySlot>, u1: usize, u2: usize)
    requires
        m1.len() == m2.len(),
        forall|i: int| slot_filled(m1, i) <==> slot_filled(m2, i),
        used_ok(m1, u1),
        used_ok(m2, u2),
    ensures
        u1 == u2,
{
    if u1 < u2 {
        assert(slot_filled(m2, u2 - 1));
    } else if u2 < u1 {
        assert(slot_filled(m1, u1 - 1));
    }
}

/// After a collection, every slot that the roots reach still holds the value it
/// held before.
pub proof fn lemma_collect_keeps_reachable(
    before: Seq<MemorySlot>,
    after: Seq<MemorySlot>,
    roots: Seq<Value>,
    a: usize,
)
    requires
        collected(before, after, roots),
        slot_filled(before, a as int),
        reachable(before, roots, a),
    ensures
        slot_filled(after, a as int),
        after[a as int] == before[a as int],
{
}

/// A slot that a collection frees was not reachable from the roots.
pub proof fn lemma_collect_frees_unreachable(
    before: Seq<MemorySlot>,
    after: Seq<MemorySlot>,
    roots: Seq<Value>,
    a: usize,
)
    requires
        collected(before, after, roots),
        slot_filled(before, a as int),
        slot_free(after, a as int),
    ensures
        !reachable(before, roots, a),
{
}

/// A collection in which every filled slot is reachable changes nothing:
/// the slots, `used` and the head of the free list stay as they were.
pub proof fn lemma_collect_all_reachable_is_identity(before: Heap, after: Heap, roots: Seq<Value>)
    requires
        before.wf(),
        after.wf(),
        collected(before.slots(), after.slots(), roots),
        forall|a: usize|
            slot_filled(before.slots(), a as int) ==> reachable(before.slots(), roots, a),
    ensures
        after.slots() == before.slots(),
        after.used_spec() == before.used_spec(),
        after.first_free_spec() == before.first_free_spec(),
{
    let m1 = before.slots();
    let m2 = after.slots();
    assert forall|i: int| slot_filled(m1, i) <==> slot_filled(m2, i) by {
        if 0 <= i < m1.len() {
            assert(slot_filled(m1, i) ==> reachable(m1, roots, i as usize));
        }
    }
    assert forall|i: int| slot_free(m1, i) <==> slot_free(m2, i) by {
        assert(slot_filled(m1, i) <==> slot_filled(m2, i));
    }
    lemma_used_unique(m1, m2, before.used_spec(), after.used_spec());
    lemma_next_free_unique(m1, m2, 0, before.first_free_spec(), after.first_free_spec());
    assert forall|i: int| 0 <= i < m1.len() implies m2[i] == m1[i] by {
        if slot_filled(m1, i) {
            assert(reachable(m1, roots, i as usize));
        } else {
            assert(slot_free(m1, i) && slot_free(m2, i));
            assert(next_free_ok(m1, i + 1, m1[i]->next_free));
            assert(next_free_ok(m2, i + 1, m2[i]->next_free));
            lemma_next_free_unique(m1, m2, i + 1, m1[i]->next_free, m2[i]->next_free);
        }
    }
    assert(m2 =~= m1);
}
} // verus!
