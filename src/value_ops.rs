use vstd::prelude::*;

use crate::exception::{CoercionError, Exception};
use crate::heap::{Heap, HeapAddress, HeapGetError, MemorySlot};
use crate::value::{Closure, HeapValue, Type, Value};

verus! {

/// How deep equality and rendering follow nested lists and objects.
pub const MAX_DEPTH: usize = 256;

/// The bit pattern of the double 1.0.
pub const ONE_BITS: u64 = 0x3FF0_0000_0000_0000;

/// The bit pattern of the double 0.0.
pub const ZERO_BITS: u64 = 0;

/// Whether a double's bit pattern is a NaN: all exponent bits set and a
/// non-zero fraction.
pub open spec fn is_nan(b: u64) -> bool {
    (b >> 52u64) & 0x7ffu64 == 0x7ffu64 && b & 0xf_ffff_ffff_ffffu64 != 0
}

/// IEEE-754 equality of two doubles given as bit patterns: no NaN equals
/// anything, the two zeros are equal, and otherwise the patterns must match.
pub open spec fn number_eq(a: u64, b: u64) -> bool {
    !is_nan(a) && !is_nan(b) && (a == b || (a & 0x7fff_ffff_ffff_ffffu64 == 0 && b
        & 0x7fff_ffff_ffff_ffffu64 == 0))
}

/// IEEE-754 equality of two doubles given as bit patterns.
pub fn numbers_equal(a: u64, b: u64) -> (r: bool)
    ensures
        r == number_eq(a, b),
{
    let a_nan = (a >> 52u64) & 0x7ffu64 == 0x7ffu64 && a & 0xf_ffff_ffff_ffffu64 != 0;
    let b_nan = (b >> 52u64) & 0x7ffu64 == 0x7ffu64 && b & 0xf_ffff_ffff_ffffu64 != 0;
    !a_nan && !b_nan && (a == b || (a & 0x7fff_ffff_ffff_ffffu64 == 0 && b
        & 0x7fff_ffff_ffff_ffffu64 == 0))
}

/// What the heap holds at an address.
pub open spec fn heap_value(m: Seq<MemorySlot>, a: usize) -> Result<HeapValue, Exception> {
    if a >= m.len() {
        Err(Exception::OutOfBoundsHeapAddress)
    } else {
        match m[a as int] {
            MemorySlot::Filled(v) => Ok(v),
            MemorySlot::Free { .. } => Err(Exception::FreedHeapAddress),
        }
    }
}

/// The value inside a box, or the value itself where it is no box.
pub open spec fn unbox_spec(m: Seq<MemorySlot>, v: Value) -> Result<Value, Exception> {
    match v {
        Value::Object(h) => match heap_value(m, h.0) {
            Err(e) => Err(e),
            Ok(HeapValue::Box(x)) => Ok(x),
            Ok(_) => Ok(v),
        },
        _ => Ok(v),
    }
}

/// The type of a value that is no box.
pub open spec fn direct_type(m: Seq<MemorySlot>, v: Value) -> Result<Type, Exception> {
    match v {
        Value::Number(_) => Ok(Type::Number),
        Value::Bool(_) => Ok(Type::Bool),
        Value::InternedString(_) => Ok(Type::String),
        Value::Function(_) => Ok(Type::Function),
        Value::Object(h) => match heap_value(m, h.0) {
            Err(e) => Err(e),
            Ok(HeapValue::String(_)) => Ok(Type::String),
            Ok(HeapValue::List(_)) => Ok(Type::List),
            Ok(_) => Ok(Type::Object),
        },
        Value::Nil => Ok(Type::Nil),
    }
}

/// The type of a value; a box has the type of what it holds.
pub open spec fn type_spec(m: Seq<MemorySlot>, v: Value) -> Result<Type, Exception> {
    match unbox_spec(m, v) {
        Err(e) => Err(e),
        Ok(x) => direct_type(m, x),
    }
}

/// The text of a value that is no box, if it is a string.
pub open spec fn direct_string(strings: Seq<String>, m: Seq<MemorySlot>, v: Value) -> Result<
    Option<Seq<char>>,
    Exception,
> {
    match v {
        Value::InternedString(i) => if i < strings.len() {
            Ok(Some(strings[i as int]@))
        } else {
            Err(Exception::InvalidString(i))
        },
        Value::Object(h) => match heap_value(m, h.0) {
            Err(e) => Err(e),
            Ok(HeapValue::String(s)) => Ok(Some(s@)),
            Ok(_) => Ok(None),
        },
        _ => Ok(None),
    }
}

/// The text of a value, if it is a string; a box is looked through.
pub open spec fn string_spec(strings: Seq<String>, m: Seq<MemorySlot>, v: Value) -> Result<
    Option<Seq<char>>,
    Exception,
> {
    match unbox_spec(m, v) {
        Err(e) => Err(e),
        Ok(x) => direct_string(strings, m, x),
    }
}

/// The exception for a failed heap lookup.
pub open spec fn heap_exception(e: HeapGetError) -> Exception {
    match e {
        HeapGetError::OutOfBounds => Exception::OutOfBoundsHeapAddress,
        HeapGetError::SlotFreed => Exception::FreedHeapAddress,
    }
}

/// The exception for a failed heap lookup.
pub fn heap_error(e: HeapGetError) -> (r: Exception)
    ensures
        r == heap_exception(e),
{
    match e {
        HeapGetError::OutOfBounds => Exception::OutOfBoundsHeapAddress,
        HeapGetError::SlotFreed => Exception::FreedHeapAddress,
    }
}

/// What the heap holds at an address.
pub fn get_heap_value(heap: &Heap, h: HeapAddress) -> (r: Result<&HeapValue, Exception>)
    ensures
        match heap_value(heap.slots(), h.0) {
            Ok(v) => r matches Ok(x) && *x == v,
            Err(e) => r matches Err(x) && x == e,
        },
{
    match heap.get(h) {
        Ok(v) => Ok(v),
        Err(e) => Err(heap_error(e)),
    }
}

/// The value inside a box, or the value itself where it is no box.
pub fn unbox(heap: &Heap, v: Value) -> (r: Result<Value, Exception>)
    ensures
        r == unbox_spec(heap.slots(), v),
{
    match v {
        Value::Object(h) => match get_heap_value(heap, h)? {
            HeapValue::Box(x) => Ok(*x),
            _ => Ok(v),
        },
        _ => Ok(v),
    }
}

/// The type of a value; a box has the type of what it holds.
pub fn get_type(heap: &Heap, v: Value) -> (r: Result<Type, Exception>)
    ensures
        r == type_spec(heap.slots(), v),
{
    let x = unbox(heap, v)?;
    match x {
        Value::Number(_) => Ok(Type::Number),
        Value::Bool(_) => Ok(Type::Bool),
        Value::InternedString(_) => Ok(Type::String),
        Value::Function(_) => Ok(Type::Function),
        Value::Object(h) => match get_heap_value(heap, h)? {
            HeapValue::String(_) => Ok(Type::String),
            HeapValue::List(_) => Ok(Type::List),
            _ => Ok(Type::Object),
        },
        Value::Nil => Ok(Type::Nil),
    }
}

/// The text of a value, if it is a string; a box is looked through.
pub fn try_get_string(strings: &Vec<String>, heap: &Heap, v: Value) -> (r: Result<
    Option<String>,
    Exception,
>)
    ensures
        match string_spec(strings@, heap.slots(), v) {
            Ok(Some(s)) => r matches Ok(Some(t)) && t@ == s,
            Ok(None) => r matches Ok(None),
            Err(e) => r matches Err(x) && x == e,
        },
{
    let x = unbox(heap, v)?;
    match x {
        Value::InternedString(i) => if i < strings.len() {
            Ok(Some(strings[i].clone()))
        } else {
            Err(Exception::InvalidString(i))
        },
        Value::Object(h) => match get_heap_value(heap, h)? {
            HeapValue::String(s) => Ok(Some(s.clone())),
            _ => Ok(None),
        },
        _ => Ok(None),
    }
}

/// Coercion to a number: a number is itself, a boolean is one or zero, nil
/// is zero, and nothing else coerces.
pub open spec fn number_coercion(v: Value) -> Option<u64> {
    match v {
        Value::Number(x) => Some(x),
        Value::Bool(b) => Some(if b { ONE_BITS } else { ZERO_BITS }),
        Value::Nil => Some(ZERO_BITS),
        _ => None,
    }
}

/// Coercion to a boolean: a boolean is itself, nil is false, anything else true.
pub open spec fn bool_coercion(v: Value) -> bool {
    match v {
        Value::Bool(b) => b,
        Value::Nil => false,
        _ => true,
    }
}

/// The type a failed coercion reports for a value.
pub open spec fn reported_type(m: Seq<MemorySlot>, v: Value) -> Type {
    match type_spec(m, v) {
        Ok(t) => t,
        Err(_) => Type::Object,
    }
}

/// The coercion error for a value that cannot become `to`.
pub fn coercion_error(heap: &Heap, v: Value, to: Type) -> (r: Exception)
    ensures
        r == Exception::CoercionError(CoercionError::new_spec(reported_type(heap.slots(), v), to)),
{
    let from = match get_type(heap, v) {
        Ok(t) => t,
        Err(_) => Type::Object,
    };
    Exception::CoercionError(CoercionError::new(from, to))
}

/// Coerces a value to a number, as a double's bit pattern.
pub fn coerce_to_number(heap: &Heap, v: Value) -> (r: Result<u64, Exception>)
    ensures
        match number_coercion(v) {
            Some(x) => r == Ok::<u64, Exception>(x),
            None => r == Err::<u64, _>(
                Exception::CoercionError(
                    CoercionError::new_spec(reported_type(heap.slots(), v), Type::Number),
                ),
            ),
        },
{
    match v {
        Value::Number(x) => Ok(x),
        Value::Bool(b) => Ok(if b { ONE_BITS } else { ZERO_BITS }),
        Value::Nil => Ok(ZERO_BITS),
        _ => Err(coercion_error(heap, v, Type::Number)),
    }
}

/// Coerces a value to a boolean; this never fails.
pub fn coerce_to_bool(v: Value) -> (r: bool)
    ensures
        r == bool_coercion(v),
{
    match v {
        Value::Bool(b) => b,
        Value::Nil => false,
        _ => true,
    }
}

/// Coerces a value to a function; only a function is one.
pub fn coerce_to_function(heap: &Heap, v: Value) -> (r: Result<Closure, Exception>)
    ensures
        match v {
            Value::Function(c) => r == Ok::<Closure, Exception>(c),
            _ => r == Err::<Closure, _>(
                Exception::CoercionError(
                    CoercionError::new_spec(reported_type(heap.slots(), v), Type::Function),
                ),
            ),
        },
{
    match v {
        Value::Function(c) => Ok(c),
        _ => Err(coercion_error(heap, v, Type::Function)),
    }
}

/// Coerces a value to a list: an address of a heap list.
pub fn coerce_to_list(heap: &Heap, v: Value) -> (r: Result<HeapAddress, Exception>)
    ensures
        match v {
            Value::Object(h) => match heap_value(heap.slots(), h.0) {
                Ok(HeapValue::List(_)) => r == Ok::<HeapAddress, Exception>(h),
                Err(e) => r matches Err(x) && x == e,
                _ => r == Err::<HeapAddress, _>(
                    Exception::CoercionError(
                        CoercionError::new_spec(reported_type(heap.slots(), v), Type::List),
                    ),
                ),
            },
            _ => r == Err::<HeapAddress, _>(
                Exception::CoercionError(
                    CoercionError::new_spec(reported_type(heap.slots(), v), Type::List),
                ),
            ),
        },
{
    if let Value::Object(h) = v {
        if let HeapValue::List(_) = get_heap_value(heap, h)? {
            return Ok(h);
        }
    }
    Err(coercion_error(heap, v, Type::List))
}

/// Coerces a value to an object: an address of a heap object.
pub fn coerce_to_object(heap: &Heap, v: Value) -> (r: Result<HeapAddress, Exception>)
    ensures
        match v {
            Value::Object(h) => match heap_value(heap.slots(), h.0) {
                Ok(HeapValue::Object(_)) => r == Ok::<HeapAddress, Exception>(h),
                Err(e) => r matches Err(x) && x == e,
                _ => r == Err::<HeapAddress, _>(
                    Exception::CoercionError(
                        CoercionError::new_spec(reported_type(heap.slots(), v), Type::Object),
                    ),
                ),
            },
            _ => r == Err::<HeapAddress, _>(
                Exception::CoercionError(
                    CoercionError::new_spec(reported_type(heap.slots(), v), Type::Object),
                ),
            ),
        },
{
    if let Value::Object(h) = v {
        if let HeapValue::Object(_) = get_heap_value(heap, h)? {
            return Ok(h);
        }
    }
    Err(coercion_error(heap, v, Type::Object))
}


/// The first field of `fields` named `name`.
pub open spec fn find_field(fields: Seq<(String, crate::value::Field)>, name: Seq<char>) -> Option<
    int,
>
    decreases fields.len(),
{
    if fields.len() == 0 {
        None
    } else {
        match find_field(fields.drop_last(), name) {
            Some(i) => Some(i),
            None => if fields.last().0@ == name {
                Some(fields.len() - 1)
            } else {
                None
            },
        }
    }
}

/// Structural equality of two values, following nested lists and objects
/// at most `d` levels deep. Strings compare by text wherever they live,
/// numbers as doubles, and boxes are looked through.
pub open spec fn equal_spec(strings: Seq<String>, m: Seq<MemorySlot>, a: Value, b: Value, d: nat) -> Result<
    bool,
    Exception,
>
    decreases d, 0nat,
{
    if d == 0 {
        Err(Exception::NestingTooDeep)
    } else {
        match (unbox_spec(m, a), unbox_spec(m, b)) {
            (Err(e), _) => Err(e),
            (_, Err(e)) => Err(e),
            (Ok(x), Ok(y)) => match (direct_string(strings, m, x), direct_string(strings, m, y)) {
                (Err(e), _) => Err(e),
                (_, Err(e)) => Err(e),
                (Ok(Some(s)), Ok(Some(t))) => Ok(s == t),
                _ => match (x, y) {
                    (Value::Number(p), Value::Number(q)) => Ok(number_eq(p, q)),
                    (Value::Bool(p), Value::Bool(q)) => Ok(p == q),
                    (Value::Function(p), Value::Function(q)) => Ok(p == q),
                    (Value::Object(p), Value::Object(q)) => match (
                        heap_value(m, p.0),
                        heap_value(m, q.0),
                    ) {
                        (Err(e), _) => Err(e),
                        (_, Err(e)) => Err(e),
                        (Ok(HeapValue::List(xs)), Ok(HeapValue::List(ys))) => if xs@.len()
                            != ys@.len() {
                            Ok(false)
                        } else {
                            elements_equal(strings, m, xs@, ys@, xs@.len(), (d - 1) as nat)
                        },
                        (Ok(HeapValue::Object(o1)), Ok(HeapValue::Object(o2))) => if o1.fields@.len()
                            != o2.fields@.len() {
                            Ok(false)
                        } else {
                            fields_equal(
                                strings,
                                m,
                                o1.fields@,
                                o2.fields@,
                                o1.fields@.len(),
                                (d - 1) as nat,
                            )
                        },
                        _ => Ok(false),
                    },
                    (Value::Nil, Value::Nil) => Ok(true),
                    _ => Ok(false),
                },
            },
        }
    }
}

/// Whether the first `k` elements of two lists are equal, compared in order.
pub open spec fn elements_equal(
    strings: Seq<String>,
    m: Seq<MemorySlot>,
    xs: Seq<Value>,
    ys: Seq<Value>,
    k: nat,
    d: nat,
) -> Result<bool, Exception>
    decreases d, k,
{
    if k == 0 || k > xs.len() || k > ys.len() {
        Ok(true)
    } else {
        match elements_equal(strings, m, xs, ys, (k - 1) as nat, d) {
            Err(e) => Err(e),
            Ok(false) => Ok(false),
            Ok(true) => equal_spec(strings, m, xs[k - 1], ys[k - 1], d),
        }
    }
}

/// Whether each of the first `k` fields of one object has an equal field of
/// the same name in the other, compared in order.
pub open spec fn fields_equal(
    strings: Seq<String>,
    m: Seq<MemorySlot>,
    f1: Seq<(String, crate::value::Field)>,
    f2: Seq<(String, crate::value::Field)>,
    k: nat,
    d: nat,
) -> Result<bool, Exception>
    decreases d, k,
{
    if k == 0 || k > f1.len() {
        Ok(true)
    } else {
        match fields_equal(strings, m, f1, f2, (k - 1) as nat, d) {
            Err(e) => Err(e),
            Ok(false) => Ok(false),
            Ok(true) => match find_field(f2, f1[k - 1].0@) {
                None => Ok(false),
                Some(j) => if 0 <= j < f2.len() {
                    equal_spec(strings, m, f1[k - 1].1.val, f2[j].1.val, d)
                } else {
                    Ok(false)
                },
            },
        }
    }
}

/// Looks up the first field named `name`.
pub fn lookup_field(fields: &Vec<(String, crate::value::Field)>, name: &String) -> (r: Option<usize>)
    ensures
        match find_field(fields@, name@) {
            Some(i) => r is Some && r->Some_0 as int == i,
            None => r is None,
        },
{
    let mut i: usize = 0;
    while i < fields.len()
        invariant
            i <= fields@.len(),
            find_field(fields@.take(i as int), name@) is None,
        decreases fields@.len() - i,
    {
        proof {
            assert(fields@.take(i + 1).drop_last() =~= fields@.take(i as int));
        }
        if fields[i].0 == *name {
            proof {
                lemma_find_field_prefix(fields@, name@, i as int);
            }
            return Some(i);
        }
        i = i + 1;
    }
    assert(fields@.take(i as int) =~= fields@);
    None
}

pub proof fn lemma_find_field_range(fields: Seq<(String, crate::value::Field)>, name: Seq<char>)
    ensures
        find_field(fields, name) matches Some(i) ==> 0 <= i < fields.len() && fields[i].0@ == name,
        find_field(fields, name) is None ==> forall|j: int| 0 <= j < fields.len() ==> fields[j].0@ != name,
    decreases fields.len(),
{
    if fields.len() > 0 {
        lemma_find_field_range(fields.drop_last(), name);
        assert forall|j: int| 0 <= j < fields.len() - 1 implies fields.drop_last()[j] == fields[j] by {}
    }
}

proof fn lemma_find_field_prefix(
    fields: Seq<(String, crate::value::Field)>,
    name: Seq<char>,
    i: int,
)
    requires
        0 <= i < fields.len(),
        find_field(fields.take(i), name) is None,
        fields[i].0@ == name,
    ensures
        find_field(fields, name) == Some(i),
    decreases fields.len(),
{
    if i == fields.len() - 1 {
        assert(fields.drop_last() =~= fields.take(i));
    } else {
        assert(fields.drop_last().take(i) =~= fields.take(i));
        lemma_find_field_prefix(fields.drop_last(), name, i);
    }
}

proof fn lemma_elements_settled(
    strings: Seq<String>,
    m: Seq<MemorySlot>,
    xs: Seq<Value>,
    ys: Seq<Value>,
    k1: nat,
    k2: nat,
    d: nat,
)
    requires
        k1 <= k2 <= xs.len(),
        k2 <= ys.len(),
        elements_equal(strings, m, xs, ys, k1, d) != Ok::<bool, Exception>(true),
    ensures
        elements_equal(strings, m, xs, ys, k2, d) == elements_equal(strings, m, xs, ys, k1, d),
    decreases k2,
{
    if k2 > k1 {
        lemma_elements_settled(strings, m, xs, ys, k1, (k2 - 1) as nat, d);
    }
}

proof fn lemma_fields_settled(
    strings: Seq<String>,
    m: Seq<MemorySlot>,
    f1: Seq<(String, crate::value::Field)>,
    f2: Seq<(String, crate::value::Field)>,
    k1: nat,
    k2: nat,
    d: nat,
)
    requires
        k1 <= k2 <= f1.len(),
        fields_equal(strings, m, f1, f2, k1, d) != Ok::<bool, Exception>(true),
    ensures
        fields_equal(strings, m, f1, f2, k2, d) == fields_equal(strings, m, f1, f2, k1, d),
    decreases k2,
{
    if k2 > k1 {
        lemma_fields_settled(strings, m, f1, f2, k1, (k2 - 1) as nat, d);
    }
}

/// The text of a value that is no box, if it is a string.
fn direct_string_of(strings: &Vec<String>, heap: &Heap, v: Value) -> (r: Result<
    Option<String>,
    Exception,
>)
    ensures
        match direct_string(strings@, heap.slots(), v) {
            Ok(Some(s)) => r matches Ok(Some(t)) && t@ == s,
            Ok(None) => r matches Ok(None),
            Err(e) => r matches Err(x) && x == e,
        },
{
    match v {
        Value::InternedString(i) => if i < strings.len() {
            Ok(Some(strings[i].clone()))
        } else {
            Err(Exception::InvalidString(i))
        },
        Value::Object(h) => match get_heap_value(heap, h)? {
            HeapValue::String(s) => Ok(Some(s.clone())),
            _ => Ok(None),
        },
        _ => Ok(None),
    }
}

/// Structural equality of two values, following nested lists and objects
/// at most `d` levels deep.
pub fn equal_at(strings: &Vec<String>, heap: &Heap, a: Value, b: Value, d: usize) -> (r: Result<
    bool,
    Exception,
>)
    ensures
        r == equal_spec(strings@, heap.slots(), a, b, d as nat),
    decreases d,
{
    if d == 0 {
        return Err(Exception::NestingTooDeep);
    }
    let x = unbox(heap, a)?;
    let y = unbox(heap, b)?;
    let sx = direct_string_of(strings, heap, x)?;
    let sy = direct_string_of(strings, heap, y)?;
    if let Some(s) = &sx {
        if let Some(t) = &sy {
            return Ok(*s == *t);
        }
    }
    match (x, y) {
        (Value::Number(p), Value::Number(q)) => Ok(numbers_equal(p, q)),
        (Value::Bool(p), Value::Bool(q)) => Ok(p == q),
        (Value::Function(p), Value::Function(q)) => Ok(p == q),
        (Value::Object(p), Value::Object(q)) => {
            let hp = get_heap_value(heap, p)?;
            let hq = get_heap_value(heap, q)?;
            match (hp, hq) {
                (HeapValue::List(xs), HeapValue::List(ys)) => {
                    if xs.len() != ys.len() {
                        return Ok(false);
                    }
                    let ghost m = heap.slots();
                    assert(equal_spec(strings@, m, a, b, d as nat) == elements_equal(
                        strings@,
                        m,
                        xs@,
                        ys@,
                        xs@.len(),
                        (d - 1) as nat,
                    ));
                    let mut i: usize = 0;
                    while i < xs.len()
                        invariant
                            equal_spec(strings@, m, a, b, d as nat) == elements_equal(
                                strings@,
                                m,
                                xs@,
                                ys@,
                                xs@.len(),
                                (d - 1) as nat,
                            ),
                            i <= xs@.len(),
                            xs@.len() == ys@.len(),
                            d > 0,
                            elements_equal(strings@, m, xs@, ys@, i as nat, (d - 1) as nat)
                                == Ok::<bool, Exception>(true),
                            m == heap.slots(),
                        decreases xs@.len() - i,
                    {
                        let e = equal_at(strings, heap, xs[i], ys[i], d - 1);
                        assert(elements_equal(strings@, m, xs@, ys@, (i + 1) as nat, (d - 1) as nat)
                            == e);
                        match e {
                            Ok(true) => {},
                            _ => {
                                proof {
                                    lemma_elements_settled(
                                        strings@,
                                        m,
                                        xs@,
                                        ys@,
                                        (i + 1) as nat,
                                        xs@.len(),
                                        (d - 1) as nat,
                                    );
                                }
                                return e;
                            },
                        }
                        i = i + 1;
                    }
                    Ok(true)
                },
                (HeapValue::Object(o1), HeapValue::Object(o2)) => {
                    if o1.fields.len() != o2.fields.len() {
                        return Ok(false);
                    }
                    let ghost m = heap.slots();
                    assert(equal_spec(strings@, m, a, b, d as nat) == fields_equal(
                        strings@,
                        m,
                        o1.fields@,
                        o2.fields@,
                        o1.fields@.len(),
                        (d - 1) as nat,
                    ));
                    let mut i: usize = 0;
                    while i < o1.fields.len()
                        invariant
                            equal_spec(strings@, m, a, b, d as nat) == fields_equal(
                                strings@,
                                m,
                                o1.fields@,
                                o2.fields@,
                                o1.fields@.len(),
                                (d - 1) as nat,
                            ),
                            i <= o1.fields@.len(),
                            d > 0,
                            fields_equal(
                                strings@,
                                m,
                                o1.fields@,
                                o2.fields@,
                                i as nat,
                                (d - 1) as nat,
                            ) == Ok::<bool, Exception>(true),
                            m == heap.slots(),
                        decreases o1.fields@.len() - i,
                    {
                        proof {
                            lemma_find_field_range(o2.fields@, o1.fields@[i as int].0@);
                        }
                        let ghost f1 = o1.fields@;
                        let ghost f2 = o2.fields@;
                        let e = match lookup_field(&o2.fields, &o1.fields[i].0) {
                            None => {
                                assert(find_field(f2, f1[i as int].0@) is None);
                                Ok(false)
                            },
                            Some(j) => {
                                assert(find_field(f2, f1[i as int].0@) == Some(j as int));
                                equal_at(strings, heap, o1.fields[i].1.val, o2.fields[j].1.val, d - 1)
                            },
                        };
                        assert(fields_equal(
                            strings@,
                            m,
                            o1.fields@,
                            o2.fields@,
                            (i + 1) as nat,
                            (d - 1) as nat,
                        ) == e);
                        match e {
                            Ok(true) => {},
                            _ => {
                                proof {
                                    lemma_fields_settled(
                                        strings@,
                                        m,
                                        o1.fields@,
                                        o2.fields@,
                                        (i + 1) as nat,
                                        o1.fields@.len(),
                                        (d - 1) as nat,
                                    );
                                }
                                return e;
                            },
                        }
                        i = i + 1;
                    }
                    Ok(true)
                },
                _ => Ok(false),
            }
        },
        (Value::Nil, Value::Nil) => Ok(true),
        _ => Ok(false),
    }
}

/// Structural equality of two values.
pub fn equal(strings: &Vec<String>, heap: &Heap, a: Value, b: Value) -> (r: Result<bool, Exception>)
    ensures
        r == equal_spec(strings@, heap.slots(), a, b, MAX_DEPTH as nat),
{
    equal_at(strings, heap, a, b, MAX_DEPTH)
}
} // verus!
