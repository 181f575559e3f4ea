use vstd::prelude::*;

use crate::ark::Function;
use crate::heap::{holds, HeapAddress, MemorySlot};
use crate::render::render_spec;
use crate::value::{Field, HeapValue, Value};
use crate::value_ops::{
    bool_coercion, direct_string, elements_equal, equal_spec, fields_equal, find_field, heap_value,
    is_nan, number_coercion, type_spec, unbox_spec,
};
use crate::opcode;
use crate::vm::{executed, field_set, new_field, non_temp_index, stack_after_return, Vm};

verus! {

/// A function called from the execution root gives the value stack back at
/// the height it had before its arguments were pushed. `entered` is the
/// machine after the call began from an empty call stack at `head`; `at_ret`
/// is the machine at the outermost return, still inside that call (every
/// frame above it temporary) and with the stack not sunk below its start.
pub proof fn lemma_root_return_restores_head(entered: Vm, at_ret: Vm, head: usize)
    requires
        entered.frames().len() == 1,
        entered.frames().last().stack_start == head,
        entered.frames().last().kind is UserFunction,
        at_ret.frames().len() >= 1,
        at_ret.frames()[0] == entered.frames()[0],
        non_temp_index(at_ret.frames(), at_ret.frames().len() - 1) == 0,
        at_ret.stack_spec().len() > head,
    ensures
        stack_after_return(at_ret.stack_spec(), at_ret.frames(), 0).len() == head,
        at_ret.frames().take(0).len() == 0,
{
    assert(non_temp_index(at_ret.frames().take(0), -1) == -1);
}

/// Over a whole run from the execution root the value stack comes back to
/// its height before the call. `run[0]` is the machine after `begin_call`
/// entered the function from an empty call stack at `head`; each later
/// machine is what a `step` that went on (with the call stack not empty)
/// made of the one before, so each keeps the bottom frame, as `step`
/// ensures; the last is at the outermost return, with every frame above the
/// bottom one temporary and the stack not sunk below the frame's start.
pub proof fn lemma_run_restores_head(run: Seq<Vm>, head: usize)
    requires
        run.len() >= 1,
        run[0].frames().len() == 1,
        run[0].frames()[0].stack_start == head,
        run[0].frames()[0].kind is UserFunction,
        keeps_bottom_frame(run),
        non_temp_index(run.last().frames(), run.last().frames().len() - 1) == 0,
        run.last().stack_spec().len() > head,
    ensures
        stack_after_return(run.last().stack_spec(), run.last().frames(), 0).len() == head,
{
    lemma_bottom_frame_kept(run, run.len() - 1);
    lemma_root_return_restores_head(run[0], run.last(), head);
}

/// Each machine of the run is a step of the one before that kept the call
/// stack non-empty and its bottom frame as it was.
pub open spec fn keeps_bottom_frame(run: Seq<Vm>) -> bool {
    forall|i: int|
        0 <= i < run.len() - 1 ==> run[i].frames().len() > 0 && (#[trigger] run[i + 1]).frames().len()
            > 0 && run[i + 1].frames()[0] == run[i].frames()[0]
}

proof fn lemma_bottom_frame_kept(run: Seq<Vm>, k: int)
    requires
        0 <= k < run.len(),
        run[0].frames().len() >= 1,
        keeps_bottom_frame(run),
    ensures
        run[k].frames().len() >= 1,
        run[k].frames()[0] == run[0].frames()[0],
    decreases k,
{
    if k > 0 {
        lemma_bottom_frame_kept(run, k - 1);
        assert(run[(k - 1) + 1].frames()[0] == run[k - 1].frames()[0]);
    }
}

/// Exiting a temporary frame gives the value stack back at the height it had
/// when the frame was entered: `entering` runs the enter instruction and
/// becomes `entered`; `exiting` runs the exit instruction on that same frame
/// and becomes `exited`. The stack must not have sunk below the frame's start.
pub proof fn lemma_temp_frame_nesting(entering: Vm, entered: Vm, exiting: Vm, exited: Vm)
    requires
        executed(entering, entered),
        entering.code_spec()[entering.ip_spec() as int] == opcode::ENTER_TEMP_FRAME,
        executed(exiting, exited),
        exiting.code_spec()[exiting.ip_spec() as int] == opcode::EXIT_TEMP_FRAME,
        exiting.frames().len() > 0,
        exiting.frames().last() == entered.frames().last(),
        exiting.stack_spec().len() >= entering.stack_spec().len(),
    ensures
        exited.stack_spec().len() == entering.stack_spec().len(),
        exited.frames() == exiting.frames().drop_last(),
{
}

/// Coercing a number to a number, a boolean to a boolean, a function to a
/// function gives the value back.
pub proof fn lemma_coercion_identity(x: u64, b: bool)
    ensures
        number_coercion(Value::Number(x)) == Some(x),
        bool_coercion(Value::Bool(b)) == b,
{
}

/// A box is transparent: a box that holds what a value unboxes to has the
/// value's type, renders as the value does, and compares with the value as
/// the value compares with itself.
pub proof fn lemma_box_transparent(
    strings: Seq<String>,
    functions: Seq<Function>,
    m: Seq<MemorySlot>,
    numerals: Seq<(u64, String)>,
    v: Value,
    b: usize,
    d: nat,
)
    requires
        unbox_spec(m, v) is Ok,
        holds(m, b, HeapValue::Box(unbox_spec(m, v)->Ok_0)),
    ensures
        type_spec(m, Value::Object(HeapAddress(b))) == type_spec(m, v),
        render_spec(strings, functions, m, numerals, Value::Object(HeapAddress(b)), d)
            == render_spec(strings, functions, m, numerals, v, d),
        equal_spec(strings, m, Value::Object(HeapAddress(b)), v, d) == equal_spec(
            strings,
            m,
            v,
            v,
            d,
        ),
        equal_spec(strings, m, v, Value::Object(HeapAddress(b)), d) == equal_spec(
            strings,
            m,
            v,
            v,
            d,
        ),
        comparable(strings, m, v, d) ==> equal_spec(
            strings,
            m,
            Value::Object(HeapAddress(b)),
            v,
            d,
        ) == Ok::<bool, crate::exception::Exception>(true) && equal_spec(
            strings,
            m,
            v,
            Value::Object(HeapAddress(b)),
            d,
        ) == Ok::<bool, crate::exception::Exception>(true),
{
    assert(heap_value(m, b) == Ok::<HeapValue, crate::exception::Exception>(
        HeapValue::Box(unbox_spec(m, v)->Ok_0),
    ));
    assert(unbox_spec(m, Value::Object(HeapAddress(b))) == unbox_spec(m, v));
    if comparable(strings, m, v, d) {
        lemma_equal_self(strings, m, v, d);
    }
}

/// No two fields share a name.
pub open spec fn unique_names(fields: Seq<(String, Field)>) -> bool {
    forall|i: int, j: int|
        0 <= i < fields.len() && 0 <= j < fields.len() && i != j ==> fields[i].0@ != fields[j].0@
}

/// No number reached from `v` within `d` levels of nesting is a NaN, no
/// object reached has two fields of one name, and no box reached holds a box.
pub open spec fn nan_free(m: Seq<MemorySlot>, v: Value, d: nat) -> bool
    decreases d,
{
    if d == 0 {
        true
    } else {
        match unbox_spec(m, v) {
            Err(_) => true,
            Ok(x) => match x {
                Value::Number(n) => !is_nan(n),
                Value::Object(h) => match heap_value(m, h.0) {
                    Ok(HeapValue::List(xs)) => forall|i: int|
                        0 <= i < xs@.len() ==> nan_free(m, #[trigger] xs@[i], (d - 1) as nat),
                    Ok(HeapValue::Object(o)) => unique_names(o.fields@) && forall|i: int|
                        0 <= i < o.fields@.len() ==> nan_free(
                            m,
                            #[trigger] o.fields@[i].1.val,
                            (d - 1) as nat,
                        ),
                    Ok(HeapValue::Box(_)) => false,
                    _ => true,
                },
                _ => true,
            },
        }
    }
}

proof fn lemma_find_own_field(fields: Seq<(String, Field)>, i: int)
    requires
        unique_names(fields),
        0 <= i < fields.len(),
    ensures
        find_field(fields, fields[i].0@) == Some(i),
    decreases fields.len(),
{
    crate::value_ops::lemma_find_field_range(fields, fields[i].0@);
    if i < fields.len() - 1 {
        let shorter = fields.drop_last();
        assert forall|a: int, b: int|
            0 <= a < shorter.len() && 0 <= b < shorter.len() && a != b implies shorter[a].0@
            != shorter[b].0@ by {
            assert(shorter[a] == fields[a] && shorter[b] == fields[b]);
        }
        assert(shorter[i] == fields[i]);
        lemma_find_own_field(shorter, i);
    } else {
        let shorter = fields.drop_last();
        crate::value_ops::lemma_find_field_range(shorter, fields[i].0@);
        if find_field(shorter, fields[i].0@) is Some {
            let j = find_field(shorter, fields[i].0@)->Some_0;
            assert(shorter[j] == fields[j]);
        }
    }
}

/// Equality never finds a value unequal to itself when no NaN and no
/// repeated field name is reached from it; it may only give up, on a bad
/// address or on nesting deeper than it follows.
pub proof fn lemma_equal_reflexive(strings: Seq<String>, m: Seq<MemorySlot>, v: Value, d: nat)
    requires
        nan_free(m, v, d),
    ensures
        equal_spec(strings, m, v, v, d) != Ok::<bool, crate::exception::Exception>(false),
    decreases d, 0nat,
{
    if d > 0 {
        match unbox_spec(m, v) {
            Err(_) => {},
            Ok(x) => {
                match direct_string(strings, m, x) {
                    Ok(Some(_)) => {
                        assert(equal_spec(strings, m, v, v, d) == Ok::<bool, crate::exception::Exception>(true));
                    },
                    Err(_) => {
                        assert(equal_spec(strings, m, v, v, d) is Err);
                    },
                    Ok(None) => {
                        match x {
                            Value::Number(n) => {
                                assert(!is_nan(n));
                                assert(crate::value_ops::number_eq(n, n));
                            },
                            Value::Object(h) => {
                                match heap_value(m, h.0) {
                                    Ok(HeapValue::List(xs)) => {
                                        lemma_elements_reflexive(
                                            strings,
                                            m,
                                            xs@,
                                            xs@.len(),
                                            (d - 1) as nat,
                                        );
                                        assert(equal_spec(strings, m, v, v, d) == elements_equal(
                                            strings,
                                            m,
                                            xs@,
                                            xs@,
                                            xs@.len(),
                                            (d - 1) as nat,
                                        ));
                                    },
                                    Ok(HeapValue::Object(o)) => {
                                        lemma_fields_reflexive(
                                            strings,
                                            m,
                                            o.fields@,
                                            o.fields@.len(),
                                            (d - 1) as nat,
                                        );
                                    },
                                    _ => {},
                                }
                            },
                            _ => {},
                        }
                    },
                }
            },
        }
    }
}

proof fn lemma_elements_reflexive(
    strings: Seq<String>,
    m: Seq<MemorySlot>,
    xs: Seq<Value>,
    k: nat,
    d: nat,
)
    requires
        k <= xs.len(),
        forall|i: int| 0 <= i < xs.len() ==> nan_free(m, #[trigger] xs[i], d),
    ensures
        elements_equal(strings, m, xs, xs, k, d) != Ok::<bool, crate::exception::Exception>(false),
    decreases d, k,
{
    if k > 0 {
        lemma_elements_reflexive(strings, m, xs, (k - 1) as nat, d);
        lemma_equal_reflexive(strings, m, xs[k - 1], d);
    }
}

proof fn lemma_fields_reflexive(
    strings: Seq<String>,
    m: Seq<MemorySlot>,
    fs: Seq<(String, Field)>,
    k: nat,
    d: nat,
)
    requires
        k <= fs.len(),
        unique_names(fs),
        forall|i: int| 0 <= i < fs.len() ==> nan_free(m, #[trigger] fs[i].1.val, d),
    ensures
        fields_equal(strings, m, fs, fs, k, d) != Ok::<bool, crate::exception::Exception>(false),
    decreases d, k,
{
    if k > 0 {
        lemma_fields_reflexive(strings, m, fs, (k - 1) as nat, d);
        lemma_find_own_field(fs, k - 1);
        lemma_equal_reflexive(strings, m, fs[k - 1].1.val, d);
    }
}


/// Setting a field keeps every field's index equal to its position: a
/// replaced field keeps its index and a new one is appended with the next.
pub proof fn lemma_field_set_keeps_positions(
    fields: Seq<(String, Field)>,
    name: Seq<char>,
    val: Value,
    mutable: bool,
    fields2: Seq<(String, Field)>,
)
    requires
        forall|k: int| 0 <= k < fields.len() ==> #[trigger] fields[k].1.index == k,
        fields.len() < u32::MAX,
        field_set(fields, name, new_field(fields, name, val, mutable), fields2),
    ensures
        forall|k: int| 0 <= k < fields2.len() ==> #[trigger] fields2[k].1.index == k,
{
    crate::value_ops::lemma_find_field_range(fields, name);
    match find_field(fields, name) {
        Some(j) => {
            assert forall|k: int| 0 <= k < fields2.len() implies #[trigger] fields2[k].1.index
                == k by {
                if k != j {
                    assert(fields2[k] == fields[k]);
                }
            }
        },
        None => {
            assert forall|k: int| 0 <= k < fields2.len() implies #[trigger] fields2[k].1.index
                == k by {
                if k < fields.len() {
                    assert(fields2[k] == fields2.drop_last()[k]);
                }
            }
        },
    }
}

/// Equality can compare `v` with itself all the way: within `d` levels of
/// nesting every address resolves, every string index is in the table, no
/// number is a NaN, no object repeats a field name and no box holds a box.
pub open spec fn comparable(strings: Seq<String>, m: Seq<MemorySlot>, v: Value, d: nat) -> bool
    decreases d,
{
    if d == 0 {
        false
    } else {
        match unbox_spec(m, v) {
            Err(_) => false,
            Ok(x) => direct_string(strings, m, x) is Ok && match x {
                Value::Number(n) => !is_nan(n),
                Value::Object(h) => match heap_value(m, h.0) {
                    Ok(HeapValue::List(xs)) => forall|i: int|
                        0 <= i < xs@.len() ==> comparable(strings, m, #[trigger] xs@[i], (d - 1) as nat),
                    Ok(HeapValue::Object(o)) => unique_names(o.fields@) && forall|i: int|
                        0 <= i < o.fields@.len() ==> comparable(
                            strings,
                            m,
                            #[trigger] o.fields@[i].1.val,
                            (d - 1) as nat,
                        ),
                    Ok(HeapValue::String(_)) => true,
                    _ => false,
                },
                _ => true,
            },
        }
    }
}

/// A value that equality can compare with itself all the way is equal to
/// itself.
pub proof fn lemma_equal_self(strings: Seq<String>, m: Seq<MemorySlot>, v: Value, d: nat)
    requires
        comparable(strings, m, v, d),
    ensures
        equal_spec(strings, m, v, v, d) == Ok::<bool, crate::exception::Exception>(true),
    decreases d, 0nat,
{
    let x = unbox_spec(m, v)->Ok_0;
    match direct_string(strings, m, x) {
        Ok(Some(_)) => {},
        _ => {
            match x {
                Value::Number(n) => {
                    assert(crate::value_ops::number_eq(n, n));
                },
                Value::Object(h) => {
                    match heap_value(m, h.0) {
                        Ok(HeapValue::List(xs)) => {
                            lemma_elements_self(strings, m, xs@, xs@.len(), (d - 1) as nat);
                        },
                        Ok(HeapValue::Object(o)) => {
                            lemma_fields_self(strings, m, o.fields@, o.fields@.len(), (d - 1) as nat);
                        },
                        _ => {},
                    }
                },
                _ => {},
            }
        },
    }
}

proof fn lemma_elements_self(strings: Seq<String>, m: Seq<MemorySlot>, xs: Seq<Value>, k: nat, d: nat)
    requires
        k <= xs.len(),
        forall|i: int| 0 <= i < xs.len() ==> comparable(strings, m, #[trigger] xs[i], d),
    ensures
        elements_equal(strings, m, xs, xs, k, d) == Ok::<bool, crate::exception::Exception>(true),
    decreases d, k,
{
    if k > 0 {
        lemma_elements_self(strings, m, xs, (k - 1) as nat, d);
        lemma_equal_self(strings, m, xs[k - 1], d);
    }
}

proof fn lemma_fields_self(
    strings: Seq<String>,
    m: Seq<MemorySlot>,
    fs: Seq<(String, Field)>,
    k: nat,
    d: nat,
)
    requires
        k <= fs.len(),
        unique_names(fs),
        forall|i: int| 0 <= i < fs.len() ==> comparable(strings, m, #[trigger] fs[i].1.val, d),
    ensures
        fields_equal(strings, m, fs, fs, k, d) == Ok::<bool, crate::exception::Exception>(true),
    decreases d, k,
{
    if k > 0 {
        lemma_fields_self(strings, m, fs, (k - 1) as nat, d);
        lemma_find_own_field(fs, k - 1);
        lemma_equal_self(strings, m, fs[k - 1].1.val, d);
    }
}
} // verus!
