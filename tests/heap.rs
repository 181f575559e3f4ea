use noa_vm::ark::FuncId;
use noa_vm::heap::{Heap, HeapAddress, HeapAllocError, HeapGetError, MemorySlot};
use noa_vm::value::{Closure, HeapValue, Value};

fn alloc_at(heap: &mut Heap, value: HeapValue, expected_address: usize) -> HeapAddress {
    let address = heap.allocate(value);
    assert_eq!(address, Ok(HeapAddress(expected_address)));
    address.unwrap()
}

fn string(s: &str) -> HeapValue {
    HeapValue::String(s.into())
}

fn free(next_free: Option<usize>) -> MemorySlot {
    MemorySlot::Free { next_free }
}

fn slots(heap: &Heap) -> Vec<MemorySlot> {
    (0..heap.capacity()).map(|i| heap.slot(i).unwrap().clone()).collect()
}

fn is_filled(slot: &MemorySlot) -> bool {
    matches!(slot, MemorySlot::Filled(_))
}

#[test]
fn heap_new_initializes_data() {
    let heap = Heap::new(3);

    assert_eq!(slots(&heap), vec![free(Some(1)), free(Some(2)), free(None)]);
    assert_eq!(heap.used(), 0);
    assert_eq!(heap.first_free(), Some(0));
}

#[test]
fn heap_allocate_allocates_object() {
    let mut heap = Heap::new(3);

    alloc_at(&mut heap, string("uwu"), 0);

    assert_eq!(
        slots(&heap),
        vec![MemorySlot::Filled(string("uwu")), free(Some(2)), free(None)]
    );
    assert_eq!(heap.used(), 1);
    assert_eq!(heap.first_free(), Some(1));
}

#[test]
fn heap_allocate_allocates_until_end() {
    let mut heap = Heap::new(3);

    alloc_at(&mut heap, string("uwu"), 0);
    alloc_at(&mut heap, string("owo"), 1);
    alloc_at(&mut heap, string("^w^"), 2);

    assert_eq!(heap.allocate(string(";w;")), Err(HeapAllocError::OutOfNoMemory));

    assert_eq!(
        slots(&heap),
        vec![
            MemorySlot::Filled(string("uwu")),
            MemorySlot::Filled(string("owo")),
            MemorySlot::Filled(string("^w^")),
        ]
    );
    assert_eq!(heap.used(), 3);
    assert_eq!(heap.first_free(), None);
}

#[test]
fn heap_get_returns_references_to_allocated_data() {
    let mut heap = Heap::new(2);

    alloc_at(&mut heap, string("uwu"), 0);

    assert_eq!(heap.get(HeapAddress(0)), Ok(&string("uwu")));
    assert_eq!(heap.get(HeapAddress(1)), Err(HeapGetError::SlotFreed));
    assert_eq!(heap.get(HeapAddress(2)), Err(HeapGetError::OutOfBounds));
}

#[test]
fn collect_collects_unreferenced_data() {
    let mut heap = Heap::new(2);

    alloc_at(&mut heap, string("uwu"), 0);
    alloc_at(&mut heap, string("owo"), 1);

    heap.collect(&vec![]);

    assert_eq!(heap.used(), 0);
    assert_eq!(heap.first_free(), Some(0));
    assert_eq!(slots(&heap), vec![free(Some(1)), free(None)]);
}

#[test]
fn collect_sets_next_free_to_next_unused_free_slot() {
    let mut heap = Heap::new(2);

    alloc_at(&mut heap, string("uwu"), 0);

    heap.collect(&vec![]);

    assert_eq!(heap.used(), 0);
    assert_eq!(heap.first_free(), Some(0));
    assert_eq!(slots(&heap), vec![free(Some(1)), free(None)]);
}

#[test]
fn collect_handles_non_contiguous_blocks() {
    let mut heap = Heap::new(3);

    alloc_at(&mut heap, string("uwu"), 0);
    alloc_at(&mut heap, string("owo"), 1);
    alloc_at(&mut heap, string("^w^"), 2);

    heap.collect(&vec![Value::Object(HeapAddress(0)), Value::Object(HeapAddress(2))]);

    assert_eq!(heap.used(), 3);
    assert_eq!(heap.first_free(), Some(1));

    let s = slots(&heap);
    assert!(is_filled(&s[0]));
    assert_eq!(s[1], free(None));
    assert!(is_filled(&s[2]));
}

#[test]
fn collect_marks_references_through_objects() {
    let mut heap = Heap::new(4);

    alloc_at(&mut heap, HeapValue::List(vec![Value::Object(HeapAddress(1))]), 0);
    alloc_at(&mut heap, HeapValue::List(vec![Value::Object(HeapAddress(3))]), 1);
    alloc_at(&mut heap, string("uwu"), 2);
    alloc_at(&mut heap, string("owo"), 3);

    heap.collect(&vec![Value::Object(HeapAddress(0))]);

    assert_eq!(heap.used(), 4);
    assert_eq!(heap.first_free(), Some(2));

    let s = slots(&heap);
    assert!(matches!(s[0], MemorySlot::Filled(HeapValue::List(..))));
    assert!(matches!(s[1], MemorySlot::Filled(HeapValue::List(..))));
    assert_eq!(s[2], free(None));
    assert!(matches!(s[3], MemorySlot::Filled(HeapValue::String(..))));
}

#[test]
fn collect_handles_cyclic_references() {
    let mut heap = Heap::new(2);

    alloc_at(&mut heap, HeapValue::List(vec![Value::Object(HeapAddress(1))]), 0);
    alloc_at(&mut heap, HeapValue::List(vec![Value::Object(HeapAddress(0))]), 1);

    heap.collect(&vec![Value::Object(HeapAddress(0))]);

    assert_eq!(heap.used(), 2);
    assert_eq!(heap.first_free(), None);

    let s = slots(&heap);
    assert!(matches!(s[0], MemorySlot::Filled(HeapValue::List(..))));
    assert!(matches!(s[1], MemorySlot::Filled(HeapValue::List(..))));
}

#[test]
fn collect_collects_unreferenced_cyclic_references() {
    let mut heap = Heap::new(2);

    alloc_at(&mut heap, HeapValue::List(vec![Value::Object(HeapAddress(1))]), 0);
    alloc_at(&mut heap, HeapValue::List(vec![Value::Object(HeapAddress(0))]), 1);

    heap.collect(&vec![]);

    assert_eq!(heap.used(), 0);
    assert_eq!(heap.first_free(), Some(0));
    assert_eq!(slots(&heap), vec![free(Some(1)), free(None)]);
}

#[test]
fn allocate_reuses_previously_freed_memory() {
    let mut heap = Heap::new(2);

    alloc_at(&mut heap, string("uwu"), 0);
    alloc_at(&mut heap, string("owo"), 1);

    heap.collect(&vec![Value::Object(HeapAddress(1))]);

    alloc_at(&mut heap, string(";w;"), 0);

    assert_eq!(heap.used(), 2);
    assert_eq!(heap.first_free(), None);
    assert_eq!(
        slots(&heap),
        vec![MemorySlot::Filled(string(";w;")), MemorySlot::Filled(string("owo"))]
    );
}

#[test]
fn allocate_uses_next_free_memory() {
    let mut heap = Heap::new(3);

    alloc_at(&mut heap, string("uwu"), 0);
    alloc_at(&mut heap, string("owo"), 1);
    alloc_at(&mut heap, string("^w^"), 2);

    heap.collect(&vec![Value::Object(HeapAddress(1))]);

    alloc_at(&mut heap, string(";w;"), 0);
    alloc_at(&mut heap, string("qwq"), 2);

    assert_eq!(heap.used(), 3);
    assert_eq!(heap.first_free(), None);
    assert_eq!(
        slots(&heap),
        vec![
            MemorySlot::Filled(string(";w;")),
            MemorySlot::Filled(string("owo")),
            MemorySlot::Filled(string("qwq")),
        ]
    );
}

#[test]
fn collection_with_everything_reachable_changes_nothing() {
    let mut heap = Heap::new(4);
    alloc_at(&mut heap, string("a"), 0);
    alloc_at(&mut heap, HeapValue::List(vec![Value::Object(HeapAddress(0))]), 1);
    let before = slots(&heap);
    let (used, first) = (heap.used(), heap.first_free());
    heap.collect(&vec![Value::Object(HeapAddress(1))]);
    assert_eq!(slots(&heap), before);
    assert_eq!(heap.used(), used);
    assert_eq!(heap.first_free(), first);
}

#[test]
fn collection_keeps_what_a_closure_captured() {
    let mut heap = Heap::new(3);
    alloc_at(&mut heap, string("x"), 0);
    alloc_at(&mut heap, HeapValue::List(vec![Value::Object(HeapAddress(0))]), 1);
    alloc_at(&mut heap, string("garbage"), 2);
    let closure = Closure { function: FuncId(0), captures: Some(HeapAddress(1)) };
    heap.collect(&vec![Value::Function(closure)]);
    assert_eq!(heap.get(HeapAddress(0)), Ok(&string("x")));
    assert!(heap.get(HeapAddress(1)).is_ok());
    assert_eq!(heap.get(HeapAddress(2)), Err(HeapGetError::SlotFreed));
    assert_eq!(heap.used(), 2);
}
