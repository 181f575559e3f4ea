use vstd::prelude::*;

use crate::ark::Function;
use crate::exception::Exception;
use crate::heap::{Heap, MemorySlot};
use crate::value::{HeapValue, Value};
use crate::value_ops::{get_heap_value, heap_value, unbox, unbox_spec, MAX_DEPTH};

verus! {

/// Why rendering a value stopped short.
#[derive(Debug, Clone, PartialEq, Eq)]
pub enum RenderStop {
    Failed(Exception),
    /// The text of this number, a double's bit pattern, is not known yet.
    NeedNumeral(u64),
}

/// The text the host gave for a number: the first entry for its bit pattern.
pub open spec fn numeral_spec(numerals: Seq<(u64, String)>, b: u64) -> Option<Seq<char>>
    decreases numerals.len(),
{
    if numerals.len() == 0 {
        None
    } else {
        match numeral_spec(numerals.drop_last(), b) {
            Some(t) => Some(t),
            None => if numerals.last().0 == b {
                Some(numerals.last().1@)
            } else {
                None
            },
        }
    }
}

pub open spec fn text_true() -> Seq<char> {
    seq!['t', 'r', 'u', 'e']
}

pub open spec fn text_false() -> Seq<char> {
    seq!['f', 'a', 'l', 's', 'e']
}

pub open spec fn text_nil() -> Seq<char> {
    seq!['(', ')']
}

pub open spec fn text_native() -> Seq<char> {
    seq!['<', 'n', 'a', 't', 'i', 'v', 'e', ' ', 'f', 'u', 'n', 'c', 't', 'i', 'o', 'n', '>']
}

pub open spec fn text_dyn() -> Seq<char> {
    seq!['d', 'y', 'n', ' ']
}

/// The name of a function: its entry in the string table, or a fixed label
/// for a native function.
pub open spec fn function_name_spec(strings: Seq<String>, functions: Seq<Function>, id: u32) -> Result<
    Seq<char>,
    Exception,
> {
    if id >= 0x8000_0000 {
        Ok(text_native())
    } else if id >= functions.len() {
        Err(Exception::InvalidUserFunction(id))
    } else if functions[id as int].name_index >= strings.len() {
        Err(Exception::InvalidString(functions[id as int].name_index as usize))
    } else {
        Ok(strings[functions[id as int].name_index as int]@)
    }
}

/// A rendered list body between brackets.
pub open spec fn wrap_list(r: Result<Seq<char>, RenderStop>) -> Result<Seq<char>, RenderStop> {
    match r {
        Ok(t) => Ok(seq!['['] + t + seq![']']),
        Err(e) => Err(e),
    }
}

/// A rendered object body between braces.
pub open spec fn wrap_object(dynamic: bool, n: nat, r: Result<Seq<char>, RenderStop>) -> Result<
    Seq<char>,
    RenderStop,
> {
    match r {
        Ok(t) => Ok(
            (if dynamic {
                text_dyn()
            } else {
                seq![]
            }) + seq!['{'] + t + (if n > 0 {
                seq![' ']
            } else {
                seq![]
            }) + seq!['}'],
        ),
        Err(e) => Err(e),
    }
}

/// The text of a value, following nested lists and objects at most `d`
/// levels deep: numbers by the host's numerals, booleans as `true` and
/// `false`, strings as their text, functions by name, lists as
/// `[a, b]`, objects as `{ "f": a, "g": b }` (with `dyn ` before a dynamic
/// one), nil as `()`, and boxes as what they hold.
pub open spec fn render_spec(
    strings: Seq<String>,
    functions: Seq<Function>,
    m: Seq<MemorySlot>,
    numerals: Seq<(u64, String)>,
    v: Value,
    d: nat,
) -> Result<Seq<char>, RenderStop>
    decreases d, 0nat,
{
    if d == 0 {
        Err(RenderStop::Failed(Exception::NestingTooDeep))
    } else {
        match unbox_spec(m, v) {
            Err(e) => Err(RenderStop::Failed(e)),
            Ok(x) => match x {
                Value::Number(b) => match numeral_spec(numerals, b) {
                    Some(t) => Ok(t),
                    None => Err(RenderStop::NeedNumeral(b)),
                },
                Value::Bool(b) => Ok(if b { text_true() } else { text_false() }),
                Value::InternedString(i) => if i < strings.len() {
                    Ok(strings[i as int]@)
                } else {
                    Err(RenderStop::Failed(Exception::InvalidString(i)))
                },
                Value::Function(c) => match function_name_spec(strings, functions, c.function.0) {
                    Ok(t) => Ok(t),
                    Err(e) => Err(RenderStop::Failed(e)),
                },
                Value::Object(h) => match heap_value(m, h.0) {
                    Err(e) => Err(RenderStop::Failed(e)),
                    Ok(HeapValue::String(s)) => Ok(s@),
                    Ok(HeapValue::List(xs)) => wrap_list(
                        render_elements(
                            strings,
                            functions,
                            m,
                            numerals,
                            xs@,
                            xs@.len(),
                            (d - 1) as nat,
                        ),
                    ),
                    Ok(HeapValue::Object(o)) => wrap_object(
                        o.dynamic,
                        o.fields@.len(),
                        render_fields(
                            strings,
                            functions,
                            m,
                            numerals,
                            o.fields@,
                            o.fields@.len(),
                            (d - 1) as nat,
                        ),
                    ),
                    Ok(HeapValue::Box(y)) => render_spec(
                        strings,
                        functions,
                        m,
                        numerals,
                        y,
                        (d - 1) as nat,
                    ),
                },
                Value::Nil => Ok(text_nil()),
            },
        }
    }
}

/// The first `k` elements of a list, rendered and joined by `, `.
pub open spec fn render_elements(
    strings: Seq<String>,
    functions: Seq<Function>,
    m: Seq<MemorySlot>,
    numerals: Seq<(u64, String)>,
    xs: Seq<Value>,
    k: nat,
    d: nat,
) -> Result<Seq<char>, RenderStop>
    decreases d, k,
{
    if k == 0 || k > xs.len() {
        Ok(seq![])
    } else {
        match render_elements(strings, functions, m, numerals, xs, (k - 1) as nat, d) {
            Err(e) => Err(e),
            Ok(prefix) => match render_spec(strings, functions, m, numerals, xs[k - 1], d) {
                Err(e) => Err(e),
                Ok(t) => Ok(prefix + (if k > 1 { seq![',', ' '] } else { seq![] }) + t),
            },
        }
    }
}

/// The first `k` fields of an object, each rendered as ` "name": value` and
/// separated by commas.
pub open spec fn render_fields(
    strings: Seq<String>,
    functions: Seq<Function>,
    m: Seq<MemorySlot>,
    numerals: Seq<(u64, String)>,
    fs: Seq<(String, crate::value::Field)>,
    k: nat,
    d: nat,
) -> Result<Seq<char>, RenderStop>
    decreases d, k,
{
    if k == 0 || k > fs.len() {
        Ok(seq![])
    } else {
        match render_fields(strings, functions, m, numerals, fs, (k - 1) as nat, d) {
            Err(e) => Err(e),
            Ok(prefix) => match render_spec(strings, functions, m, numerals, fs[k - 1].1.val, d) {
                Err(e) => Err(e),
                Ok(t) => Ok(
                    prefix + (if k > 1 { seq![','] } else { seq![] }) + seq![' ', '"'] + fs[k
                        - 1].0@ + seq!['"', ':', ' '] + t,
                ),
            },
        }
    }
}

/// Appends the characters of `t` to `s`.
fn append(s: &mut String, t: &str)
    ensures
        final(s)@ == old(s)@ + t@,
{
    s.append(t)
}

/// A string with the characters of `s`.
pub(crate) fn text(s: &str) -> (r: String)
    ensures
        r@ == s@,
{
    String::from_str(s)
}

/// Appends one string to another.
pub fn append_string(s: &mut String, t: &String)
    ensures
        final(s)@ == old(s)@ + t@,
{
    append(s, t.as_str());
}

/// The text the host gave for a number.
pub fn lookup_numeral(numerals: &Vec<(u64, String)>, b: u64) -> (r: Option<&String>)
    ensures
        match numeral_spec(numerals@, b) {
            Some(t) => r matches Some(s) && s@ == t,
            None => r is None,
        },
{
    let mut i: usize = 0;
    while i < numerals.len()
        invariant
            i <= numerals@.len(),
            numeral_spec(numerals@.take(i as int), b) is None,
        decreases numerals@.len() - i,
    {
        assert(numerals@.take(i + 1).drop_last() =~= numerals@.take(i as int));
        if numerals[i].0 == b {
            proof {
                lemma_numeral_prefix(numerals@, b, i as int);
            }
            return Some(&numerals[i].1);
        }
        i = i + 1;
    }
    assert(numerals@.take(i as int) =~= numerals@);
    None
}

proof fn lemma_numeral_prefix(numerals: Seq<(u64, String)>, b: u64, i: int)
    requires
        0 <= i < numerals.len(),
        numeral_spec(numerals.take(i), b) is None,
        numerals[i].0 == b,
    ensures
        numeral_spec(numerals, b) == Some(numerals[i].1@),
    decreases numerals.len(),
{
    if i == numerals.len() - 1 {
        assert(numerals.drop_last() =~= numerals.take(i));
    } else {
        assert(numerals.drop_last().take(i) =~= numerals.take(i));
        lemma_numeral_prefix(numerals.drop_last(), b, i);
    }
}

/// The name of a function.
pub fn function_name(strings: &Vec<String>, functions: &Vec<Function>, id: u32) -> (r: Result<
    String,
    Exception,
>)
    ensures
        match function_name_spec(strings@, functions@, id) {
            Ok(t) => r matches Ok(s) && s@ == t,
            Err(e) => r matches Err(x) && x == e,
        },
{
    if id >= 0x8000_0000 {
        let mut s = String::new();
        append(&mut s, "<native function>");
        proof {
            reveal_strlit("<native function>");
            assert(s@ =~= text_native());
        }
        Ok(s)
    } else if id as usize >= functions.len() {
        Err(Exception::InvalidUserFunction(id))
    } else if functions[id as usize].name_index as usize >= strings.len() {
        Err(Exception::InvalidString(functions[id as usize].name_index as usize))
    } else {
        Ok(strings[functions[id as usize].name_index as usize].clone())
    }
}


proof fn lemma_elements_stopped(
    strings: Seq<String>,
    functions: Seq<Function>,
    m: Seq<MemorySlot>,
    numerals: Seq<(u64, String)>,
    xs: Seq<Value>,
    k1: nat,
    k2: nat,
    d: nat,
)
    requires
        k1 <= k2 <= xs.len(),
        render_elements(strings, functions, m, numerals, xs, k1, d) is Err,
    ensures
        render_elements(strings, functions, m, numerals, xs, k2, d) == render_elements(
            strings,
            functions,
            m,
            numerals,
            xs,
            k1,
            d,
        ),
    decreases k2,
{
    if k2 > k1 {
        lemma_elements_stopped(strings, functions, m, numerals, xs, k1, (k2 - 1) as nat, d);
    }
}

proof fn lemma_fields_stopped(
    strings: Seq<String>,
    functions: Seq<Function>,
    m: Seq<MemorySlot>,
    numerals: Seq<(u64, String)>,
    fs: Seq<(String, crate::value::Field)>,
    k1: nat,
    k2: nat,
    d: nat,
)
    requires
        k1 <= k2 <= fs.len(),
        render_fields(strings, functions, m, numerals, fs, k1, d) is Err,
    ensures
        render_fields(strings, functions, m, numerals, fs, k2, d) == render_fields(
            strings,
            functions,
            m,
            numerals,
            fs,
            k1,
            d,
        ),
    decreases k2,
{
    if k2 > k1 {
        lemma_fields_stopped(strings, functions, m, numerals, fs, k1, (k2 - 1) as nat, d);
    }
}

/// The text of a value, following nested lists and objects at most `d`
/// levels deep.
pub fn render_at(
    strings: &Vec<String>,
    functions: &Vec<Function>,
    heap: &Heap,
    numerals: &Vec<(u64, String)>,
    v: Value,
    d: usize,
) -> (r: Result<String, RenderStop>)
    ensures
        match render_spec(strings@, functions@, heap.slots(), numerals@, v, d as nat) {
            Ok(t) => r matches Ok(s) && s@ == t,
            Err(e) => r matches Err(x) && x == e,
        },
    decreases d,
{
    if d == 0 {
        return Err(RenderStop::Failed(Exception::NestingTooDeep));
    }
    let x = match unbox(heap, v) {
        Ok(x) => x,
        Err(e) => return Err(RenderStop::Failed(e)),
    };
    let ghost m = heap.slots();
    match x {
        Value::Number(b) => match lookup_numeral(numerals, b) {
            Some(t) => Ok(t.clone()),
            None => Err(RenderStop::NeedNumeral(b)),
        },
        Value::Bool(b) => {
            let mut s = String::new();
            if b {
                append(&mut s, "true");
                proof {
                    reveal_strlit("true");
                    assert(s@ =~= text_true());
                }
            } else {
                append(&mut s, "false");
                proof {
                    reveal_strlit("false");
                    assert(s@ =~= text_false());
                }
            }
            Ok(s)
        },
        Value::InternedString(i) => if i < strings.len() {
            Ok(strings[i].clone())
        } else {
            Err(RenderStop::Failed(Exception::InvalidString(i)))
        },
        Value::Function(c) => match function_name(strings, functions, c.function.0) {
            Ok(t) => Ok(t),
            Err(e) => Err(RenderStop::Failed(e)),
        },
        Value::Object(h) => {
            let hv = match get_heap_value(heap, h) {
                Ok(hv) => hv,
                Err(e) => return Err(RenderStop::Failed(e)),
            };
            match hv {
                HeapValue::String(s) => Ok(s.clone()),
                HeapValue::List(xs) => {
                    assert(render_spec(strings@, functions@, m, numerals@, v, d as nat) == wrap_list(
                                render_elements(
                                    strings@,
                                    functions@,
                                    m,
                                    numerals@,
                                    xs@,
                                    xs@.len(),
                                    (d - 1) as nat,
                                ),
                            ));
                    let mut body = String::new();
                    let mut i: usize = 0;
                    while i < xs.len()
                        invariant
                            render_spec(strings@, functions@, m, numerals@, v, d as nat) == wrap_list(
                                render_elements(
                                    strings@,
                                    functions@,
                                    m,
                                    numerals@,
                                    xs@,
                                    xs@.len(),
                                    (d - 1) as nat,
                                ),
                            ),
                            i <= xs@.len(),
                            d > 0,
                            m == heap.slots(),
                            render_elements(strings@, functions@, m, numerals@, xs@, i as nat, (d - 1) as nat)
                                == Ok::<Seq<char>, RenderStop>(body@),
                        decreases xs@.len() - i,
                    {
                        let t = render_at(strings, functions, heap, numerals, xs[i], d - 1);
                        match t {
                            Ok(t) => {
                                if i > 0 {
                                    append(&mut body, ", ");
                                    proof {
                                        reveal_strlit(", ");
                                    }
                                }
                                append(&mut body, t.as_str());
                                proof {
                                    if i > 0 {
                                        assert(", "@ =~= seq![',', ' ']);
                                    }
                                }
                            },
                            Err(e) => {
                                proof {
                                    lemma_elements_stopped(
                                        strings@,
                                        functions@,
                                        m,
                                        numerals@,
                                        xs@,
                                        (i + 1) as nat,
                                        xs@.len(),
                                        (d - 1) as nat,
                                    );
                                }
                                return Err(e);
                            },
                        }
                        i = i + 1;
                    }
                    let mut s = String::new();
                    append(&mut s, "[");
                    append(&mut s, body.as_str());
                    append(&mut s, "]");
                    proof {
                        reveal_strlit("[");
                        reveal_strlit("]");
                        assert(s@ =~= seq!['['] + body@ + seq![']']);
                    }
                    Ok(s)
                },
                HeapValue::Object(o) => {
                    assert(render_spec(strings@, functions@, m, numerals@, v, d as nat) == wrap_object(
                                o.dynamic,
                                o.fields@.len(),
                                render_fields(
                                    strings@,
                                    functions@,
                                    m,
                                    numerals@,
                                    o.fields@,
                                    o.fields@.len(),
                                    (d - 1) as nat,
                                ),
                            ));
                    let mut body = String::new();
                    let mut i: usize = 0;
                    while i < o.fields.len()
                        invariant
                            render_spec(strings@, functions@, m, numerals@, v, d as nat) == wrap_object(
                                o.dynamic,
                                o.fields@.len(),
                                render_fields(
                                    strings@,
                                    functions@,
                                    m,
                                    numerals@,
                                    o.fields@,
                                    o.fields@.len(),
                                    (d - 1) as nat,
                                ),
                            ),
                            i <= o.fields@.len(),
                            d > 0,
                            m == heap.slots(),
                            render_fields(
                                strings@,
                                functions@,
                                m,
                                numerals@,
                                o.fields@,
                                i as nat,
                                (d - 1) as nat,
                            ) == Ok::<Seq<char>, RenderStop>(body@),
                        decreases o.fields@.len() - i,
                    {
                        let t = render_at(strings, functions, heap, numerals, o.fields[i].1.val, d - 1);
                        match t {
                            Ok(t) => {
                                let ghost before = body@;
                                if i > 0 {
                                    append(&mut body, ",");
                                }
                                append(&mut body, " \"");
                                append(&mut body, o.fields[i].0.as_str());
                                append(&mut body, "\": ");
                                append(&mut body, t.as_str());
                                proof {
                                    reveal_strlit(",");
                                    reveal_strlit(" \"");
                                    reveal_strlit("\": ");
                                    assert(body@ =~= before + (if i > 0 {
                                        seq![',']
                                    } else {
                                        seq![]
                                    }) + seq![' ', '"'] + o.fields@[i as int].0@ + seq![
                                        '"',
                                        ':',
                                        ' ',
                                    ] + t@);
                                }
                            },
                            Err(e) => {
                                proof {
                                    lemma_fields_stopped(
                                        strings@,
                                        functions@,
                                        m,
                                        numerals@,
                                        o.fields@,
                                        (i + 1) as nat,
                                        o.fields@.len(),
                                        (d - 1) as nat,
                                    );
                                }
                                return Err(e);
                            },
                        }
                        i = i + 1;
                    }
                    let mut s = String::new();
                    if o.dynamic {
                        append(&mut s, "dyn ");
                    }
                    append(&mut s, "{");
                    append(&mut s, body.as_str());
                    if o.fields.len() > 0 {
                        append(&mut s, " ");
                    }
                    append(&mut s, "}");
                    proof {
                        reveal_strlit("dyn ");
                        reveal_strlit("{");
                        reveal_strlit(" ");
                        reveal_strlit("}");
                        assert(s@ =~= (if o.dynamic {
                            text_dyn()
                        } else {
                            seq![]
                        }) + seq!['{'] + body@ + (if o.fields@.len() > 0 {
                            seq![' ']
                        } else {
                            seq![]
                        }) + seq!['}']);
                    }
                    Ok(s)
                },
                HeapValue::Box(y) => render_at(strings, functions, heap, numerals, *y, d - 1),
            }
        },
        Value::Nil => {
            let mut s = String::new();
            append(&mut s, "()");
            proof {
                reveal_strlit("()");
                assert(s@ =~= text_nil());
            }
            Ok(s)
        },
    }
}

/// The text of a value.
pub fn render(
    strings: &Vec<String>,
    functions: &Vec<Function>,
    heap: &Heap,
    numerals: &Vec<(u64, String)>,
    v: Value,
) -> (r: Result<String, RenderStop>)
    ensures
        match render_spec(strings@, functions@, heap.slots(), numerals@, v, MAX_DEPTH as nat) {
            Ok(t) => r matches Ok(s) && s@ == t,
            Err(e) => r matches Err(x) && x == e,
        },
{
    render_at(strings, functions, heap, numerals, v, MAX_DEPTH)
}
} // verus!
