use vstd::prelude::*;

use crate::ark::FuncId;
use crate::heap::HeapAddress;

verus! {

/// The type of a runtime value.
#[derive(Debug, Clone, Copy, PartialEq, Eq, Structural)]
pub enum Type {
    Number,
    Bool,
    Function,
    String,
    List,
    Object,
    Nil,
}

/// A function together with the heap list of the values it captured, if any.
#[derive(Debug, Clone, Copy, PartialEq, Eq, Structural)]
pub struct Closure {
    pub function: FuncId,
    pub captures: Option<HeapAddress>,
}

/// A runtime value. A number is held as the bit pattern of an IEEE-754
/// double; the numeric operations on it are done by the host.
#[derive(Debug, Clone, Copy, PartialEq, Eq, Structural)]
pub enum Value {
    Number(u64),
    Bool(bool),
    /// An index into the string table.
    InternedString(usize),
    Function(Closure),
    /// An address on the heap.
    Object(HeapAddress),
    Nil,
}

/// Where a string lives: in the string table, or on the heap.
#[derive(Debug, Clone, Copy, PartialEq, Eq, Structural)]
pub enum StringLocation {
    Interned(usize),
    Allocated(HeapAddress),
}

/// A field of an object.
#[derive(Debug, Clone, Copy, PartialEq, Eq, Structural)]
pub struct Field {
    pub val: Value,
    pub mutable: bool,
    /// The rank of the field in insertion order.
    pub index: u32,
}

/// An object: named fields in insertion order, and whether writing a missing
/// field inserts it. A field's `index` is its position in `fields`: a new
/// field is appended with the next index and a replaced field keeps its own,
/// so rendering the fields in vector order renders them by index.
#[derive(Debug, Clone, PartialEq, Eq)]
pub struct Object {
    pub fields: Vec<(String, Field)>,
    pub dynamic: bool,
}

/// A value allocated on the heap.
#[derive(Debug, Clone, PartialEq, Eq)]
pub enum HeapValue {
    String(String),
    List(Vec<Value>),
    Object(Object),
    /// A shared cell; boxes never hold a box.
    Box(Value),
}

/// The values that an object's fields hold, in field order.
pub open spec fn field_values(fields: Seq<(String, Field)>) -> Seq<Value> {
    fields.map_values(|f: (String, Field)| f.1.val)
}

/// The values that a heap value holds directly.
pub open spec fn children(h: HeapValue) -> Seq<Value> {
    match h {
        HeapValue::String(_) => seq![],
        HeapValue::List(xs) => xs@,
        HeapValue::Object(o) => field_values(o.fields@),
        HeapValue::Box(v) => seq![v],
    }
}

/// Whether a value refers to the heap slot at `a`.
pub open spec fn points_to(v: Value, a: usize) -> bool {
    match v {
        Value::Object(h) => h.0 == a,
        Value::Function(c) => c.captures == Some(HeapAddress(a)),
        _ => false,
    }
}

/// The heap slot a value refers to, if any.
pub fn value_ref(v: &Value) -> (r: Option<usize>)
    ensures
        forall|a: usize| points_to(*v, a) <==> r == Some(a),
{
    match v {
        Value::Object(h) => Some(h.0),
        Value::Function(c) => match c.captures {
            Some(h) => Some(h.0),
            None => None,
        },
        _ => None,
    }
}

/// The values that a heap value holds directly.
pub fn child_values(h: &HeapValue) -> (r: Vec<Value>)
    ensures
        r@ == children(*h),
{
    match h {
        HeapValue::String(_) => Vec::new(),
        HeapValue::List(xs) => xs.clone(),
        HeapValue::Object(o) => {
            let mut r: Vec<Value> = Vec::new();
            let mut i: usize = 0;
            while i < o.fields.len()
                invariant
                    i <= o.fields@.len(),
                    r@ == field_values(o.fields@.take(i as int)),
                decreases o.fields@.len() - i,
            {
                proof {
                    assert(field_values(o.fields@.take(i + 1)) =~= field_values(
                        o.fields@.take(i as int),
                    ).push(o.fields@[i as int].1.val));
                }
                r.push(o.fields[i].1.val);
                i = i + 1;
            }
            assert(o.fields@.take(i as int) =~= o.fields@);
            r
        },
        HeapValue::Box(v) => vec![*v],
    }
}

} // verus!
