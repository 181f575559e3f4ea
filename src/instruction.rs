use vstd::prelude::*;

use crate::bytes::be_u32;
use crate::code_reader::be_u64;
use crate::opcode;
use crate::render::text;
use crate::value::{Type, Value};

verus! {

/// The kind of an instruction operand, which fixes its length.
#[derive(Debug, Clone, Copy, PartialEq, Eq, Structural)]
pub enum OperandKind {
    U32,
    F64,
    Bool,
}

pub open spec fn operand_length(kind: OperandKind) -> nat {
    match kind {
        OperandKind::U32 => 4,
        OperandKind::F64 => 8,
        OperandKind::Bool => 1,
    }
}

/// What an operand of `kind` that starts at `at` holds, if the code is long
/// enough: a `u32`, the bit pattern of a double, or 0 or 1 for a boolean.
pub open spec fn operand_value(code: Seq<u8>, at: int, kind: OperandKind) -> Option<u64> {
    if at < 0 || at + operand_length(kind) > code.len() {
        None
    } else {
        match kind {
            OperandKind::U32 => Some(be_u32(code.skip(at)) as u64),
            OperandKind::F64 => Some(be_u64(code.skip(at)) as u64),
            OperandKind::Bool => Some(if code[at] != 0 { 1u64 } else { 0u64 }),
        }
    }
}

/// An operand of an instruction, as the instruction's bytes give it.
#[derive(Debug, Clone, PartialEq, Eq)]
pub struct Operand {
    pub name: String,
    pub kind: OperandKind,
    pub length: usize,
    /// `None` where the code ends before the operand does.
    pub value: Option<u64>,
}

/// A value an instruction takes from the stack.
#[derive(Debug, Clone, PartialEq, Eq)]
pub struct Argument {
    pub name: String,
    pub expected_type: Option<Type>,
    /// `None` where the stack is too short to hold it.
    pub value: Option<Value>,
}

/// A description of the instruction at some address: its name, its operands
/// and the stack values it will use.
#[derive(Debug, Clone, PartialEq, Eq)]
pub struct InstructionSummary {
    pub opcode: u8,
    pub name: String,
    pub operands: Vec<Operand>,
    pub arguments: Vec<Argument>,
}

/// Reads an operand of `kind` that starts at `at`.
fn read_operand(code: &Vec<u8>, at: usize, kind: OperandKind) -> (r: Option<u64>)
    ensures
        r == operand_value(code@, at as int, kind),
{
    let n: usize = match kind {
        OperandKind::U32 => 4,
        OperandKind::F64 => 8,
        OperandKind::Bool => 1,
    };
    if at > code.len() || code.len() - at < n {
        return None;
    }
    match kind {
        OperandKind::U32 => {
            let x: u32 = (code[at] as u32) * 0x100_0000 + (code[at + 1] as u32) * 0x1_0000 + (
            code[at + 2] as u32) * 0x100 + (code[at + 3] as u32);
            proof {
                let s = code@.skip(at as int);
                assert(s[0] == code@[at as int] && s[1] == code@[at + 1] && s[2] == code@[at + 2]
                    && s[3] == code@[at + 3]);
            }
            Some(x as u64)
        },
        OperandKind::F64 => {
            let hi: u32 = (code[at] as u32) * 0x100_0000 + (code[at + 1] as u32) * 0x1_0000 + (
            code[at + 2] as u32) * 0x100 + (code[at + 3] as u32);
            let lo: u32 = (code[at + 4] as u32) * 0x100_0000 + (code[at + 5] as u32) * 0x1_0000 + (
            code[at + 6] as u32) * 0x100 + (code[at + 7] as u32);
            proof {
                let s = code@.skip(at as int);
                let t = s.skip(4);
                assert(s[0] == code@[at as int] && s[1] == code@[at + 1] && s[2] == code@[at + 2]
                    && s[3] == code@[at + 3]);
                assert(t[0] == code@[at + 4] && t[1] == code@[at + 5] && t[2] == code@[at + 6]
                    && t[3] == code@[at + 7]);
            }
            Some((hi as u64) * 0x1_0000_0000 + (lo as u64))
        },
        OperandKind::Bool => Some(if code[at] != 0 { 1 } else { 0 }),
    }
}

/// The stack value `depth` places below the top, if the stack is that deep.
pub open spec fn stack_value_spec(stack: Seq<Value>, depth: int) -> Option<Value> {
    if 0 <= depth < stack.len() {
        Some(stack[stack.len() - 1 - depth])
    } else {
        None
    }
}

/// The stack value `depth` places below the top.
fn stack_value(stack: &Vec<Value>, depth: usize) -> (r: Option<Value>)
    ensures
        depth < stack@.len() ==> r == Some(stack@[stack@.len() - 1 - depth]),
        depth >= stack@.len() ==> r is None,
{
    if depth < stack.len() {
        Some(stack[stack.len() - 1 - depth])
    } else {
        None
    }
}

/// The operand names and kinds of an opcode.
fn operand_layout(op: u8) -> (r: Option<(&'static str, OperandKind)>)
{
    if op == opcode::JUMP || op == opcode::JUMP_IF {
        Some(("address", OperandKind::U32))
    } else if op == opcode::CALL {
        Some(("arg count", OperandKind::U32))
    } else if op == opcode::PUSH_FLOAT {
        Some(("val", OperandKind::F64))
    } else if op == opcode::PUSH_BOOL {
        Some(("val", OperandKind::Bool))
    } else if op == opcode::PUSH_FUNC {
        Some(("func id", OperandKind::U32))
    } else if op == opcode::PUSH_STRING {
        Some(("string index", OperandKind::U32))
    } else if op == opcode::PUSH_OBJECT {
        Some(("dynamic", OperandKind::Bool))
    } else if op == opcode::STORE_VAR || op == opcode::LOAD_VAR {
        Some(("var index", OperandKind::U32))
    } else if op == opcode::ADD_FIELD {
        Some(("mutable", OperandKind::Bool))
    } else {
        None
    }
}

/// The name of an opcode.
fn opcode_name(op: u8) -> &'static str {
    if op == opcode::NO_OP { "NoOp" }
    else if op == opcode::JUMP { "Jump" }
    else if op == opcode::JUMP_IF { "JumpIf" }
    else if op == opcode::CALL { "Call" }
    else if op == opcode::RET { "Ret" }
    else if op == opcode::ENTER_TEMP_FRAME { "EnterTempFrame" }
    else if op == opcode::EXIT_TEMP_FRAME { "ExitTempFrame" }
    else if op == opcode::PUSH_FLOAT { "PushFloat" }
    else if op == opcode::PUSH_BOOL { "PushBool" }
    else if op == opcode::PUSH_FUNC { "PushFunc" }
    else if op == opcode::PUSH_NIL { "PushNil" }
    else if op == opcode::PUSH_STRING { "PushString" }
    else if op == opcode::PUSH_OBJECT { "PushObject" }
    else if op == opcode::PUSH_LIST { "PushList" }
    else if op == opcode::POP { "Pop" }
    else if op == opcode::DUP { "Dup" }
    else if op == opcode::SWAP { "Swap" }
    else if op == opcode::STORE_VAR { "StoreVar" }
    else if op == opcode::LOAD_VAR { "LoadVar" }
    else if op == opcode::ADD { "Add" }
    else if op == opcode::SUB { "Sub" }
    else if op == opcode::MULT { "Mult" }
    else if op == opcode::DIV { "Div" }
    else if op == opcode::EQUAL { "Equal" }
    else if op == opcode::LESS_THAN { "LessThan" }
    else if op == opcode::NOT { "Not" }
    else if op == opcode::AND { "And" }
    else if op == opcode::OR { "Or" }
    else if op == opcode::GREATER_THAN { "GreaterThan" }
    else if op == opcode::CONCAT { "Concat" }
    else if op == opcode::TO_STRING { "ToString" }
    else if op == opcode::ADD_FIELD { "AddField" }
    else if op == opcode::WRITE_FIELD { "WriteField" }
    else if op == opcode::READ_FIELD { "ReadField" }
    else if op == opcode::APPEND_ELEMENT { "AppendElement" }
    else if op == opcode::WRITE_ELEMENT { "WriteElement" }
    else if op == opcode::READ_ELEMENT { "ReadElement" }
    else if op == opcode::BOX { "Box" }
    else if op == opcode::UNBOX { "Unbox" }
    else if op == opcode::BOUNDARY { "Boundary" }
    else { "InvalidOpcode" }
}

/// The stack values an opcode takes, each with its name, the type it is
/// expected to have, and its depth below the top of the stack.
fn argument_layout(op: u8) -> (r: Vec<(&'static str, Option<Type>, usize)>)
{
    let mut r: Vec<(&'static str, Option<Type>, usize)> = Vec::new();
    if op == opcode::JUMP_IF {
        r.push(("condition", Some(Type::Bool), 0));
    } else if op == opcode::RET || op == opcode::TO_STRING || op == opcode::BOX || op
        == opcode::UNBOX {
        r.push(("val", None, 0));
    } else if op == opcode::NOT {
        r.push(("val", Some(Type::Bool), 0));
    } else if op == opcode::ADD || op == opcode::SUB || op == opcode::MULT || op == opcode::DIV
        || op == opcode::LESS_THAN || op == opcode::GREATER_THAN {
        r.push(("left", Some(Type::Number), 1));
        r.push(("right", Some(Type::Number), 0));
    } else if op == opcode::EQUAL {
        r.push(("left", None, 1));
        r.push(("right", None, 0));
    } else if op == opcode::AND || op == opcode::OR {
        r.push(("left", Some(Type::Bool), 1));
        r.push(("right", Some(Type::Bool), 0));
    } else if op == opcode::CONCAT {
        r.push(("left", Some(Type::String), 1));
        r.push(("right", Some(Type::String), 0));
    } else if op == opcode::ADD_FIELD || op == opcode::WRITE_FIELD {
        r.push(("object", Some(Type::Object), 2));
        r.push(("field", Some(Type::String), 1));
        r.push(("value", None, 0));
    } else if op == opcode::READ_FIELD {
        r.push(("object", Some(Type::Object), 1));
        r.push(("field", Some(Type::String), 0));
    } else if op == opcode::APPEND_ELEMENT {
        r.push(("list", Some(Type::List), 1));
        r.push(("value", None, 0));
    } else if op == opcode::WRITE_ELEMENT {
        r.push(("list", Some(Type::List), 2));
        r.push(("index", Some(Type::Number), 1));
        r.push(("value", None, 0));
    } else if op == opcode::READ_ELEMENT {
        r.push(("list", Some(Type::List), 1));
        r.push(("index", Some(Type::Number), 0));
    }
    r
}

impl InstructionSummary {
    /// Describes the instruction at `ip`: its operand is read from the bytes
    /// after the opcode, and each argument is the stack value at its depth.
    /// A call takes as many arguments as its count says, deepest first.
    pub fn from_code(code: &Vec<u8>, ip: usize, stack: &Vec<Value>) -> (r: Option<
        InstructionSummary,
    >)
        ensures
            ip >= code@.len() ==> r is None,
            ip < code@.len() && code@[ip as int] == opcode::CALL && operand_value(
                code@,
                ip + 1,
                OperandKind::U32,
            ) is Some ==> ({
                let n = operand_value(code@, ip + 1, OperandKind::U32)->Some_0;
                r matches Some(s) && s.arguments@.len() == n && forall|i: int|
                    0 <= i < n ==> s.arguments@[i].value == stack_value_spec(stack@, n - 1 - i)
            }),
            ip < code@.len() ==> (r matches Some(s) && s.opcode == code@[ip as int] && (forall|k: int|
                0 <= k < s.operands@.len() ==> s.operands@[k].value == operand_value(
                    code@,
                    ip + 1,
                    s.operands@[k].kind,
                ))),
    {
        if ip >= code.len() {
            return None;
        }
        let op = code[ip];
        let mut operands: Vec<Operand> = Vec::new();
        match operand_layout(op) {
            Some((name, kind)) => {
                let length: usize = match kind {
                    OperandKind::U32 => 4,
                    OperandKind::F64 => 8,
                    OperandKind::Bool => 1,
                };
                operands.push(
                    Operand { name: text(name), kind, length, value: read_operand(code, ip + 1, kind) },
                );
            },
            None => {},
        }
        let mut arguments: Vec<Argument> = Vec::new();
        if op == opcode::CALL {
            match read_operand(code, ip + 1, OperandKind::U32) {
                Some(n) => {
                    let mut i: u64 = 0;
                    while i < n
                        invariant
                            i <= n,
                            n <= u32::MAX,
                            arguments@.len() == i,
                            forall|k: int|
                                0 <= k < i ==> arguments@[k].value == stack_value_spec(
                                    stack@,
                                    n - 1 - k,
                                ),
                        decreases n - i,
                    {
                        let depth = (n - i - 1) as usize;
                        arguments.push(
                            Argument {
                                name: text("arg"),
                                expected_type: None,
                                value: stack_value(stack, depth),
                            },
                        );
                        i = i + 1;
                    }
                },
                None => {},
            }
        } else {
            let layout = argument_layout(op);
            let mut k: usize = 0;
            while k < layout.len()
                decreases layout@.len() - k,
            {
                let (name, expected_type, depth) = layout[k];
                arguments.push(
                    Argument { name: text(name), expected_type, value: stack_value(stack, depth) },
                );
                k = k + 1;
            }
        }
        Some(InstructionSummary { opcode: op, name: text(opcode_name(op)), operands, arguments })
    }
}

} // verus!
