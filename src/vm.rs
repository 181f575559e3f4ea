use vstd::prelude::*;

use crate::ark::{FuncId, Function};
use crate::bytes::be_u32;
use crate::code_reader::be_u64;
use crate::code_reader::CodeReader;
use crate::exception::{Exception, FormattedException, TraceFrame};
use crate::frame::{Frame, FrameKind};
use crate::heap::{holds, slot_filled, Heap, HeapAddress};
use crate::value_ops::heap_error;
use crate::opcode;
use crate::render::{render, text, RenderStop};
use crate::value::{Closure, Field, HeapValue, Object, Value};
use crate::value_ops::{
    bool_coercion, coerce_to_bool, coerce_to_function, coerce_to_list, coerce_to_number,
    coerce_to_object, equal, equal_spec, get_heap_value, lookup_field, number_coercion, unbox,
    unbox_spec, MAX_DEPTH,
};

verus! {

/// `n` nils.
pub open spec fn nils(n: nat) -> Seq<Value> {
    Seq::new(n, |i: int| Value::Nil)
}

/// The stack after a call of `n` arguments has been fitted to `arity`
/// parameters: extra arguments dropped, missing ones filled with nil.
pub open spec fn fit_args(s: Seq<Value>, n: nat, arity: nat) -> Seq<Value> {
    if n > arity {
        s.take(s.len() - (n - arity))
    } else {
        s + nils((arity - n) as nat)
    }
}

/// The index of the nearest frame at or below index `k` that is not a
/// temporary frame, or -1 where there is none.
pub open spec fn non_temp_index(frames: Seq<Frame>, k: int) -> int
    decreases k + 1,
{
    if k < 0 || k >= frames.len() {
        -1
    } else if frames[k].kind is Temp {
        non_temp_index(frames, k - 1)
    } else {
        k
    }
}

/// The stack after a temporary frame that starts at `start` is exited.
pub open spec fn exit_temp_stack(s: Seq<Value>, start: usize) -> Seq<Value> {
    if start < s.len() {
        s.take(start as int)
    } else {
        s
    }
}

/// The nearest frame that is not a temporary frame.
pub open spec fn top_non_temp(frames: Seq<Frame>) -> Option<Frame> {
    let k = non_temp_index(frames, frames.len() - 1);
    if k >= 0 {
        Some(frames[k])
    } else {
        None
    }
}

proof fn lemma_non_temp_index_range(frames: Seq<Frame>, k: int)
    requires
        -1 <= k < frames.len(),
    ensures
        -1 <= non_temp_index(frames, k) <= k,
        non_temp_index(frames, k) >= 0 ==> !(frames[non_temp_index(frames, k)].kind is Temp),
        forall|j: int| non_temp_index(frames, k) < j <= k && j >= 0 ==> frames[j].kind is Temp,
    decreases k + 1,
{
    if k >= 0 && frames[k].kind is Temp {
        lemma_non_temp_index_range(frames, k - 1);
    }
}

/// Where the value stack is cut back to when a frame that starts at `start`
/// ends: a user function below has its closure just under the arguments.
pub open spec fn backtrack(frames: Seq<Frame>, start: usize) -> int {
    match top_non_temp(frames) {
        Some(f) => if f.kind is UserFunction && start > 0 {
            start - 1
        } else {
            start as int
        },
        None => start as int,
    }
}

/// The code address a new call resumes at on return.
pub open spec fn return_address(frames: Seq<Frame>, ip: usize) -> Option<usize> {
    if frames.len() == 0 {
        None
    } else if frames.last().kind is NativeFunction {
        None
    } else {
        Some(ip)
    }
}

/// The virtual machine: loaded tables and code, value stack, heap, call stack.
pub struct Vm {
    functions: Vec<Function>,
    strings: Vec<String>,
    code: CodeReader,
    stack: Vec<Value>,
    stack_capacity: usize,
    heap: Heap,
    call_stack: Vec<Frame>,
    call_stack_capacity: usize,
    trace_ip: usize,
    numerals: Vec<(u64, String)>,
    /// Allocations counted since the last collection began, plus the slots
    /// that collection kept.
    allocated: usize,
    /// The count of `allocated` past which the next allocation collects.
    next_gc_threshold: usize,
}

/// The collection threshold a fresh machine starts with, in allocations.
pub const INITIAL_GC_THRESHOLD: usize = 16384;

/// After a collection the threshold is this many times the slots kept.
pub const GC_GROW_FACTOR: usize = 2;

impl Vm {
    pub closed spec fn functions_spec(&self) -> Seq<Function> {
        self.functions@
    }

    pub closed spec fn strings_spec(&self) -> Seq<String> {
        self.strings@
    }

    pub closed spec fn code_spec(&self) -> Seq<u8> {
        self.code.code_spec()
    }

    pub closed spec fn ip_spec(&self) -> usize {
        self.code.ip_spec()
    }

    pub closed spec fn stack_spec(&self) -> Seq<Value> {
        self.stack@
    }

    pub closed spec fn stack_capacity_spec(&self) -> usize {
        self.stack_capacity
    }

    pub closed spec fn heap_spec(&self) -> Heap {
        self.heap
    }

    pub closed spec fn frames(&self) -> Seq<Frame> {
        self.call_stack@
    }

    pub closed spec fn call_stack_capacity_spec(&self) -> usize {
        self.call_stack_capacity
    }

    /// The next allocation collects first: no slot is free, or more
    /// allocations were counted than the threshold allows.
    pub closed spec fn gc_due(&self) -> bool {
        self.heap.first_free_spec() is None || self.allocated > self.next_gc_threshold
    }

    pub closed spec fn trace_ip_spec(&self) -> usize {
        self.trace_ip
    }

    pub closed spec fn numerals_spec(&self) -> Seq<(u64, String)> {
        self.numerals@
    }

    /// The machine's invariant: a well-formed heap, and both stacks within
    /// their capacities.
    pub open spec fn wf(&self) -> bool {
        &&& self.heap_spec().wf()
        &&& self.stack_spec().len() <= self.stack_capacity_spec()
        &&& self.frames().len() <= self.call_stack_capacity_spec()
    }

    /// Everything but the value stack, the call stack and the position in
    /// the code is as in `other`.
    pub open spec fn same_tables(&self, other: &Vm) -> bool {
        &&& self.functions_spec() == other.functions_spec()
        &&& self.strings_spec() == other.strings_spec()
        &&& self.code_spec() == other.code_spec()
        &&& self.stack_capacity_spec() == other.stack_capacity_spec()
        &&& self.call_stack_capacity_spec() == other.call_stack_capacity_spec()
        &&& self.numerals_spec() == other.numerals_spec()
    }

    /// The text of a value, as [`Vm::to_string`] gives it.
    pub open spec fn rendered(&self, v: Value) -> Result<Seq<char>, RenderStop> {
        crate::render::render_spec(
            self.strings_spec(),
            self.functions_spec(),
            self.heap_spec().slots(),
            self.numerals_spec(),
            v,
            MAX_DEPTH as nat,
        )
    }

    /// Every field but the value stack is as in `other`.
    pub closed spec fn same_but_stack(&self, other: &Vm) -> bool {
        &&& self.functions == other.functions
        &&& self.strings == other.strings
        &&& self.code == other.code
        &&& self.stack_capacity == other.stack_capacity
        &&& self.heap == other.heap
        &&& self.call_stack == other.call_stack
        &&& self.call_stack_capacity == other.call_stack_capacity
        &&& self.trace_ip == other.trace_ip
        &&& self.numerals == other.numerals
        &&& self.allocated == other.allocated
        &&& self.next_gc_threshold == other.next_gc_threshold
    }

    /// A machine over the given tables and code with empty stacks and a heap
    /// of `heap_size` slots.
    pub fn new(
        functions: Vec<Function>,
        strings: Vec<String>,
        code: Vec<u8>,
        stack_size: usize,
        call_stack_size: usize,
        heap_size: usize,
    ) -> (r: Vm)
        ensures
            r.wf(),
            r.functions_spec() == functions@,
            r.strings_spec() == strings@,
            r.code_spec() == code@,
            r.stack_spec().len() == 0,
            r.frames().len() == 0,
            r.stack_capacity_spec() == stack_size,
            r.call_stack_capacity_spec() == call_stack_size,
            r.heap_spec().slots().len() == heap_size,
            r.numerals_spec().len() == 0,
    {
        Vm {
            functions,
            strings,
            code: CodeReader::new(code),
            stack: Vec::new(),
            stack_capacity: stack_size,
            heap: Heap::new(heap_size),
            call_stack: Vec::new(),
            call_stack_capacity: call_stack_size,
            trace_ip: 0,
            numerals: Vec::new(),
            allocated: 0,
            next_gc_threshold: INITIAL_GC_THRESHOLD,
        }
    }

    /// The heap.
    pub fn heap(&self) -> (r: &Heap)
        ensures
            *r == self.heap_spec(),
    {
        &self.heap
    }

    /// The value stack, bottom first.
    pub fn stack(&self) -> (r: &Vec<Value>)
        ensures
            r@ == self.stack_spec(),
    {
        &self.stack
    }

    /// The call stack, bottom first.
    pub fn call_stack(&self) -> (r: &Vec<Frame>)
        ensures
            r@ == self.frames(),
    {
        &self.call_stack
    }

    /// The position of the next instruction.
    pub fn ip(&self) -> (r: usize)
        ensures
            r == self.ip_spec(),
    {
        self.code.ip()
    }

    /// The bytecode.
    pub fn code(&self) -> (r: &Vec<u8>)
        ensures
            r@ == self.code_spec(),
    {
        self.code.code()
    }

    /// The loaded user functions.
    pub fn functions(&self) -> (r: &Vec<Function>)
        ensures
            r@ == self.functions_spec(),
    {
        &self.functions
    }

    /// The string table.
    pub fn strings(&self) -> (r: &Vec<String>)
        ensures
            r@ == self.strings_spec(),
    {
        &self.strings
    }

    /// Pushes a value onto the value stack.
    pub fn push_value(&mut self, v: Value) -> (r: Result<(), Exception>)
        requires
            old(self).wf(),
        ensures
            final(self).wf(),
            final(self).same_tables(old(self)),
            final(self).frames() == old(self).frames(),
            final(self).heap_spec() == old(self).heap_spec(),
            final(self).ip_spec() == old(self).ip_spec(),
            old(self).stack_spec().len() < old(self).stack_capacity_spec() ==> r is Ok
                && final(self).stack_spec() == old(self).stack_spec().push(v),
            old(self).stack_spec().len() >= old(self).stack_capacity_spec() ==> r == Err::<(), _>(
                Exception::StackOverflow,
            ) && final(self).stack_spec() == old(self).stack_spec(),
    {
        if self.stack.len() < self.stack_capacity {
            self.stack.push(v);
            Ok(())
        } else {
            Err(Exception::StackOverflow)
        }
    }

    /// Pops the top value off the value stack.
    pub fn pop_value(&mut self) -> (r: Result<Value, Exception>)
        requires
            old(self).wf(),
        ensures
            final(self).wf(),
            final(self).same_tables(old(self)),
            final(self).frames() == old(self).frames(),
            final(self).heap_spec() == old(self).heap_spec(),
            final(self).ip_spec() == old(self).ip_spec(),
            old(self).stack_spec().len() > 0 ==> r == Ok::<Value, Exception>(
                old(self).stack_spec().last(),
            ) && final(self).stack_spec() == old(self).stack_spec().drop_last(),
            old(self).stack_spec().len() == 0 ==> r == Err::<Value, _>(Exception::StackUnderflow)
                && final(self).stack_spec() == old(self).stack_spec(),
    {
        match self.stack.pop() {
            Some(v) => Ok(v),
            None => Err(Exception::StackUnderflow),
        }
    }

    /// The value `depth` places below the top of the value stack.
    pub fn peek(&self, depth: usize) -> (r: Result<Value, Exception>)
        ensures
            depth < self.stack_spec().len() ==> r == Ok::<Value, Exception>(
                self.stack_spec()[self.stack_spec().len() - 1 - depth],
            ),
            depth >= self.stack_spec().len() ==> r == Err::<Value, _>(Exception::StackUnderflow),
    {
        if depth < self.stack.len() {
            Ok(self.stack[self.stack.len() - 1 - depth])
        } else {
            Err(Exception::StackUnderflow)
        }
    }

    /// Cuts the value stack back to `len` values.
    fn shrink(&mut self, len: usize)
        requires
            old(self).wf(),
        ensures
            final(self).wf(),
            final(self).same_tables(old(self)),
            final(self).frames() == old(self).frames(),
            final(self).heap_spec() == old(self).heap_spec(),
            final(self).ip_spec() == old(self).ip_spec(),
            final(self).stack_spec() == (if len < old(self).stack_spec().len() {
                old(self).stack_spec().take(len as int)
            } else {
                old(self).stack_spec()
            }),
    {
        self.stack.truncate(len);
        proof {
            if len < old(self).stack_spec().len() {
                assert(self.stack@ =~= old(self).stack_spec().take(len as int));
            }
        }
    }

    /// The index of the nearest frame that is not a temporary frame.
    fn top_non_temp_index(&self) -> (r: Option<usize>)
        ensures
            match r {
                Some(k) => k as int == non_temp_index(self.frames(), self.frames().len() - 1),
                None => non_temp_index(self.frames(), self.frames().len() - 1) == -1,
            },
    {
        let mut k: usize = self.call_stack.len();
        while k > 0
            invariant
                k <= self.frames().len(),
                non_temp_index(self.frames(), self.frames().len() - 1) == non_temp_index(
                    self.frames(),
                    k - 1,
                ),
            decreases k,
        {
            match self.call_stack[k - 1].kind {
                FrameKind::Temp { .. } => {
                    k = k - 1;
                },
                _ => {
                    return Some(k - 1);
                },
            }
        }
        None
    }

    /// The nearest frame that is not a temporary frame.
    fn get_top_non_temp_frame(&self) -> (r: Option<Frame>)
        ensures
            r == top_non_temp(self.frames()),
    {
        proof {
            lemma_non_temp_index_range(self.frames(), self.frames().len() - 1);
        }
        match self.top_non_temp_index() {
            Some(k) => Some(self.call_stack[k]),
            None => None,
        }
    }

    /// Where the value stack is cut back to when a frame that starts at
    /// `stack_start` ends.
    fn get_stack_backtrack_index(&self, stack_start: usize) -> (r: usize)
        ensures
            r == backtrack(self.frames(), stack_start),
    {
        match self.get_top_non_temp_frame() {
            Some(f) => match f.kind {
                FrameKind::UserFunction => if stack_start > 0 {
                    stack_start - 1
                } else {
                    stack_start
                },
                _ => stack_start,
            },
            None => stack_start,
        }
    }

    /// The code address that a call made now resumes at on return.
    fn get_return_address(&self) -> (r: Option<usize>)
        ensures
            r == return_address(self.frames(), self.ip_spec()),
    {
        if self.call_stack.len() == 0 {
            None
        } else {
            match self.call_stack[self.call_stack.len() - 1].kind {
                FrameKind::NativeFunction => None,
                _ => Some(self.code.ip()),
            }
        }
    }

    /// Pushes a frame onto the call stack.
    fn push_frame(&mut self, frame: Frame) -> (r: Result<(), Exception>)
        requires
            old(self).wf(),
        ensures
            final(self).wf(),
            final(self).same_tables(old(self)),
            final(self).stack_spec() == old(self).stack_spec(),
            final(self).heap_spec() == old(self).heap_spec(),
            final(self).ip_spec() == old(self).ip_spec(),
            old(self).frames().len() < old(self).call_stack_capacity_spec() ==> r is Ok
                && final(self).frames() == old(self).frames().push(frame),
            old(self).frames().len() >= old(self).call_stack_capacity_spec() ==> r == Err::<
                (),
                _,
            >(Exception::CallStackOverflow) && final(self).frames() == old(self).frames(),
    {
        if self.call_stack.len() < self.call_stack_capacity {
            self.call_stack.push(frame);
            Ok(())
        } else {
            Err(Exception::CallStackOverflow)
        }
    }
}


/// The values a closure captured, as the heap holds them; `None` where its
/// captures address does not hold a list.
pub open spec fn closure_captures(slots: Seq<crate::heap::MemorySlot>, c: Closure) -> Option<
    Seq<Value>,
> {
    match c.captures {
        None => Some(seq![]),
        Some(h) => if slot_filled(slots, h.0 as int) {
            match slots[h.0 as int] {
                crate::heap::MemorySlot::Filled(HeapValue::List(xs)) => Some(xs@),
                _ => None,
            }
        } else {
            None
        },
    }
}


/// A call of user closure `c` with `n` arguments on top of the stack can be
/// entered: the function exists, its captures are a heap list, the stack
/// holds the arguments and has room for the fitted arguments, the captures
/// and the locals, and the call stack has room for a frame.
pub open spec fn user_call_ok(vm: Vm, c: Closure, n: nat) -> bool {
    let index = c.function.0 % 0x8000_0000;
    let f = vm.functions_spec()[index as int];
    let caps = closure_captures(vm.heap_spec().slots(), c);
    &&& index < vm.functions_spec().len()
    &&& caps is Some
    &&& n <= vm.stack_spec().len()
    &&& vm.stack_spec().len() - n + f.arity + caps->Some_0.len() + f.locals_count
        <= vm.stack_capacity_spec()
    &&& vm.frames().len() < vm.call_stack_capacity_spec()
}

/// A call of closure `c` with `n` arguments can be made: a user call that
/// can be entered, or a native call without captures whose arguments are on
/// the stack and whose frame fits.
pub open spec fn call_ok(vm: Vm, c: Closure, n: nat) -> bool {
    if c.function.0 >= 0x8000_0000 {
        c.captures is None && n <= vm.stack_spec().len() && vm.frames().len()
            < vm.call_stack_capacity_spec()
    } else {
        user_call_ok(vm, c, n)
    }
}

/// One step of the run whose call stack started at `base` frames can be
/// taken: the run is not over, the instruction can run, a call can be made,
/// a return finds its user frame, and an exited scope does not end the run.
pub open spec fn step_ok(vm: Vm, base: nat) -> bool {
    let c = vm.code_spec();
    let ip = vm.ip_spec();
    let s = vm.stack_spec();
    let n = s.len();
    let op = c[ip as int];
    let arg = operand_u32(c, ip);
    let frames = vm.frames();
    let k = non_temp_index(frames, frames.len() - 1);
    &&& frames.len() > base
    &&& instruction_ok(vm)
    &&& op == opcode::CALL ==> call_ok(vm, s[n - 1 - arg]->Function_0, arg)
    &&& op == opcode::RET ==> n > 0 && k >= 0 && frames[k].kind is UserFunction
    &&& op == opcode::EXIT_TEMP_FRAME ==> frames.len() - 1 > base
}

/// A call of closure `c` with `k` arguments can begin: the arguments fit on
/// the stack and the call can then be made.
pub open spec fn begin_call_ok(vm: Vm, c: Closure, k: nat) -> bool {
    let index = c.function.0 % 0x8000_0000;
    let f = vm.functions_spec()[index as int];
    let caps = closure_captures(vm.heap_spec().slots(), c);
    &&& vm.stack_spec().len() + k <= vm.stack_capacity_spec()
    &&& vm.frames().len() < vm.call_stack_capacity_spec()
    &&& if c.function.0 >= 0x8000_0000 {
        c.captures is None
    } else {
        &&& index < vm.functions_spec().len()
        &&& caps is Some
        &&& vm.stack_spec().len() + f.arity + caps->Some_0.len() + f.locals_count
            <= vm.stack_capacity_spec()
    }
}

/// The value stack once the native call on top of the call stack ends: cut
/// back to the frame's start, and one further where a user function made the
/// call and its closure lies below the arguments.
pub open spec fn native_cut(vm: Vm) -> Seq<Value> {
    let frames = vm.frames();
    exit_temp_stack(
        vm.stack_spec(),
        backtrack(frames.drop_last(), frames.last().stack_start) as usize,
    )
}

/// Copies a vector of values.
fn copy_values(xs: &Vec<Value>) -> (r: Vec<Value>)
    ensures
        r@ == xs@,
{
    let mut r: Vec<Value> = Vec::new();
    let mut i: usize = 0;
    while i < xs.len()
        invariant
            i <= xs@.len(),
            r@ == xs@.take(i as int),
        decreases xs@.len() - i,
    {
        assert(xs@.take(i + 1) =~= xs@.take(i as int).push(xs@[i as int]));
        r.push(xs[i]);
        i = i + 1;
    }
    assert(xs@.take(i as int) =~= xs@);
    r
}

impl Vm {
    /// The values a closure captured.
    fn captures_of(&self, closure: Closure) -> (r: Result<Vec<Value>, Exception>)
        requires
            self.wf(),
        ensures
            closure_captures(self.heap_spec().slots(), closure) matches Some(caps) ==> (r matches Ok(
                v,
            ) && v@ == caps),
            closure_captures(self.heap_spec().slots(), closure) is None ==> r is Err,
    {
        match closure.captures {
            None => Ok(Vec::new()),
            Some(h) => match self.heap.get(h) {
                Ok(HeapValue::List(xs)) => Ok(copy_values(xs)),
                Ok(_) => Err(Exception::Custom(String::from_str("closure captures are not a list"))),
                Err(e) => Err(heap_error(e)),
            },
        }
    }

    /// Enters a user function with `arg_count` arguments on top of the stack:
    /// fits the arguments to the function's arity, pushes the captured values
    /// and a nil for each local, pushes a frame and jumps to the function.
    fn call_user(&mut self, closure: Closure, arg_count: u32) -> (r: Result<(), Exception>)
        requires
            old(self).wf(),
        ensures
            final(self).wf(),
            final(self).same_tables(old(self)),
            final(self).heap_spec() == old(self).heap_spec(),
            r is Err ==> final(self).stack_spec() == old(self).stack_spec() && final(self).frames()
                == old(self).frames() && final(self).ip_spec() == old(self).ip_spec(),
            user_call_ok(*old(self), closure, arg_count as nat) <==> r is Ok,
            closure.function.0 % 0x8000_0000 >= old(self).functions_spec().len() ==> r == Err::<
                (),
                _,
            >(Exception::InvalidUserFunction(closure.function.0 % 0x8000_0000)),
            r is Ok ==> {
                let index = closure.function.0 % 0x8000_0000;
                let f = old(self).functions_spec()[index as int];
                let fitted = fit_args(old(self).stack_spec(), arg_count as nat, f.arity as nat);
                let caps = closure_captures(old(self).heap_spec().slots(), closure)->Some_0;
                &&& index < old(self).functions_spec().len()
                &&& closure_captures(old(self).heap_spec().slots(), closure) is Some
                &&& fitted.len() >= f.arity
                &&& final(self).stack_spec() == fitted + caps + nils(f.locals_count as nat)
                &&& final(self).frames() == old(self).frames().push(
                    Frame {
                        function: closure.function,
                        stack_start: (fitted.len() - f.arity) as usize,
                        ret: return_address(old(self).frames(), old(self).ip_spec()),
                        kind: FrameKind::UserFunction,
                    },
                )
                &&& final(self).ip_spec() == f.address
            },
    {
        let index = closure.function.decode();
        if index as usize >= self.functions.len() {
            return Err(Exception::InvalidUserFunction(index));
        }
        let arity = self.functions[index as usize].arity as usize;
        let locals = self.functions[index as usize].locals_count as usize;
        let address = self.functions[index as usize].address as usize;
        let ret = self.get_return_address();
        let captures = self.captures_of(closure)?;
        let n = arg_count as usize;
        let len = self.stack.len();
        if n > arity && n - arity > len {
            return Err(Exception::StackUnderflow);
        }
        let fitted_len = if n > arity { len - (n - arity) } else {
            if arity - n > self.stack_capacity - len {
                return Err(Exception::StackOverflow);
            }
            len + (arity - n)
        };
        if fitted_len < arity {
            return Err(Exception::StackUnderflow);
        }
        if captures.len() > self.stack_capacity - fitted_len || locals > self.stack_capacity
            - fitted_len - captures.len() {
            return Err(Exception::StackOverflow);
        }
        if self.call_stack.len() >= self.call_stack_capacity {
            return Err(Exception::CallStackOverflow);
        }
        let ghost s0 = self.stack@;
        if n > arity {
            self.stack.truncate(fitted_len);
            assert(self.stack@ =~= fit_args(s0, arg_count as nat, arity as nat));
        } else {
            let mut k: usize = n;
            while k < arity
                invariant
                    n <= k <= arity,
                    self.stack@ == s0 + nils((k - n) as nat),
                    self.same_but_stack(old(self)),
                decreases arity - k,
            {
                assert(s0 + nils((k + 1 - n) as nat) =~= (s0 + nils((k - n) as nat)).push(
                    Value::Nil,
                ));
                self.stack.push(Value::Nil);
                k = k + 1;
            }
        }
        let ghost fitted = self.stack@;
        let stack_start = fitted_len - arity;
        let mut k: usize = 0;
        while k < captures.len()
            invariant
                k <= captures@.len(),
                self.stack@ == fitted + captures@.take(k as int),
                self.same_but_stack(old(self)),
            decreases captures@.len() - k,
        {
            assert(fitted + captures@.take(k + 1) =~= (fitted + captures@.take(k as int)).push(
                captures@[k as int],
            ));
            self.stack.push(captures[k]);
            k = k + 1;
        }
        assert(captures@.take(k as int) =~= captures@);
        let ghost with_caps = self.stack@;
        let mut k: usize = 0;
        while k < locals
            invariant
                k <= locals,
                self.stack@ == with_caps + nils(k as nat),
                self.same_but_stack(old(self)),
            decreases locals - k,
        {
            assert(with_caps + nils((k + 1) as nat) =~= (with_caps + nils(k as nat)).push(
                Value::Nil,
            ));
            self.stack.push(Value::Nil);
            k = k + 1;
        }
        let frame = Frame {
            function: closure.function,
            stack_start,
            ret,
            kind: FrameKind::UserFunction,
        };
        self.call_stack.push(frame);
        self.code.jump(address);
        Ok(())
    }
}

/// The stack after the frames from index `k` up have ended: the return value
/// is popped, then the stack is cut back as [`backtrack`] says.
pub open spec fn stack_after_return(stack: Seq<Value>, frames: Seq<Frame>, k: int) -> Seq<Value> {
    let s = stack.drop_last();
    let b = backtrack(frames.take(k), frames[k].stack_start);
    if b < s.len() {
        s.take(b)
    } else {
        s
    }
}

impl Vm {
    /// Returns from the current user function: pops the return value, ends
    /// the user frame and any temporary frames above it, cuts the value stack
    /// back and resumes at the frame's return address, if it has one.
    fn ret_user(&mut self) -> (r: Result<Value, Exception>)
        requires
            old(self).wf(),
        ensures
            final(self).wf(),
            final(self).same_tables(old(self)),
            final(self).heap_spec() == old(self).heap_spec(),
            ({
                let frames = old(self).frames();
                let k = non_temp_index(frames, frames.len() - 1);
                if old(self).stack_spec().len() == 0 {
                    r == Err::<Value, _>(Exception::StackUnderflow) && *final(self) == *old(self)
                } else if k < 0 || !(frames[k].kind is UserFunction) {
                    r == Err::<Value, _>(Exception::NoReturn) && *final(self) == *old(self)
                } else {
                    &&& r == Ok::<Value, Exception>(old(self).stack_spec().last())
                    &&& final(self).frames() == frames.take(k)
                    &&& final(self).stack_spec() == stack_after_return(
                        old(self).stack_spec(),
                        frames,
                        k,
                    )
                    &&& final(self).ip_spec() == match frames[k].ret {
                        Some(a) => a,
                        None => old(self).ip_spec(),
                    }
                }
            }),
    {
        if self.stack.len() == 0 {
            return Err(Exception::StackUnderflow);
        }
        proof {
            lemma_non_temp_index_range(self.frames(), self.frames().len() - 1);
        }
        let k = match self.top_non_temp_index() {
            Some(k) => k,
            None => return Err(Exception::NoReturn),
        };
        let frame = self.call_stack[k];
        match frame.kind {
            FrameKind::UserFunction => {},
            _ => return Err(Exception::NoReturn),
        }
        let ret = self.stack.pop().unwrap();
        self.call_stack.truncate(k);
        let b = self.get_stack_backtrack_index(frame.stack_start);
        self.shrink(b);
        match frame.ret {
            Some(a) => self.code.jump(a),
            None => {},
        }
        Ok(ret)
    }

    /// Enters a temporary frame that starts at the current stack head, inside
    /// the nearest user function frame.
    fn enter_temp_frame(&mut self) -> (r: Result<(), Exception>)
        requires
            old(self).wf(),
        ensures
            final(self).wf(),
            final(self).same_tables(old(self)),
            final(self).heap_spec() == old(self).heap_spec(),
            final(self).stack_spec() == old(self).stack_spec(),
            final(self).ip_spec() == old(self).ip_spec(),
            r is Err ==> final(self).frames() == old(self).frames(),
            ({
                let frames = old(self).frames();
                let k = non_temp_index(frames, frames.len() - 1);
                k >= 0 && frames[k].kind is UserFunction && frames.len()
                    < old(self).call_stack_capacity_spec()
            }) ==> r is Ok,
            r is Ok ==> {
                let frames = old(self).frames();
                let k = non_temp_index(frames, frames.len() - 1);
                &&& k >= 0
                &&& frames[k].kind is UserFunction
                &&& final(self).frames() == frames.push(
                    Frame {
                        function: frames[k].function,
                        stack_start: old(self).stack_spec().len() as usize,
                        ret: frames[k].ret,
                        kind: FrameKind::Temp { parent_function_index: k as usize },
                    },
                )
            },
    {
        proof {
            lemma_non_temp_index_range(self.frames(), self.frames().len() - 1);
        }
        let k = match self.top_non_temp_index() {
            Some(k) => k,
            None => return Err(Exception::Custom(String::from_str("no function to enter a scope in"))),
        };
        let parent = self.call_stack[k];
        match parent.kind {
            FrameKind::UserFunction => {},
            _ => return Err(Exception::Custom(String::from_str("no function to enter a scope in"))),
        }
        let frame = Frame {
            function: parent.function,
            stack_start: self.stack.len(),
            ret: parent.ret,
            kind: FrameKind::Temp { parent_function_index: k },
        };
        self.push_frame(frame)
    }

    /// Exits the temporary frame on top of the call stack and cuts the value
    /// stack back to where the frame started.
    fn exit_temp_frame(&mut self) -> (r: Result<(), Exception>)
        requires
            old(self).wf(),
        ensures
            final(self).wf(),
            final(self).same_tables(old(self)),
            final(self).heap_spec() == old(self).heap_spec(),
            final(self).ip_spec() == old(self).ip_spec(),
            r is Err ==> *final(self) == *old(self),
            (old(self).frames().len() > 0 && old(self).frames().last().kind is Temp) <==> r is Ok,
            r is Ok ==> {
                let start = old(self).frames().last().stack_start;
                &&& final(self).frames() == old(self).frames().drop_last()
                &&& final(self).stack_spec() == exit_temp_stack(old(self).stack_spec(), start)
            },
    {
        let n = self.call_stack.len();
        if n == 0 {
            return Err(Exception::Custom(String::from_str("no scope to exit")));
        }
        let frame = self.call_stack[n - 1];
        match frame.kind {
            FrameKind::Temp { .. } => {},
            _ => return Err(Exception::Custom(String::from_str("no scope to exit"))),
        }
        self.call_stack.pop();
        self.shrink(frame.stack_start);
        Ok(())
    }

    /// Where variable `index` of the current function lives on the stack.
    fn get_variable_stack_index(&self, index: usize) -> (r: Option<usize>)
        ensures
            match top_non_temp(self.frames()) {
                Some(f) => if f.stack_start + index < self.stack_spec().len() {
                    r is Some && r->Some_0 as int == f.stack_start + index
                } else {
                    r is None
                },
                None => r is None,
            },
    {
        let frame = self.get_top_non_temp_frame()?;
        if index < self.stack.len() && frame.stack_start < self.stack.len() - index {
            Some(frame.stack_start + index)
        } else {
            None
        }
    }

    /// Reads variable `index` of the current function.
    fn read_variable(&self, index: usize) -> (r: Result<Value, Exception>)
        ensures
            match top_non_temp(self.frames()) {
                Some(f) => if f.stack_start + index < self.stack_spec().len() {
                    r == Ok::<Value, Exception>(self.stack_spec()[f.stack_start + index])
                } else {
                    r == Err::<Value, _>(Exception::InvalidVariable(index))
                },
                None => r == Err::<Value, _>(Exception::InvalidVariable(index)),
            },
    {
        match self.get_variable_stack_index(index) {
            Some(i) => {
                let v = self.stack[i];
                proof {
                    let f = top_non_temp(self.frames())->Some_0;
                    assert(v == self.stack_spec()[f.stack_start + index]);
                }
                Ok(v)
            },
            None => Err(Exception::InvalidVariable(index)),
        }
    }

    /// Writes variable `index` of the current function.
    fn write_variable(&mut self, index: usize, value: Value) -> (r: Result<(), Exception>)
        requires
            old(self).wf(),
        ensures
            final(self).wf(),
            final(self).same_tables(old(self)),
            final(self).heap_spec() == old(self).heap_spec(),
            final(self).frames() == old(self).frames(),
            final(self).ip_spec() == old(self).ip_spec(),
            match top_non_temp(old(self).frames()) {
                Some(f) => if f.stack_start + index < old(self).stack_spec().len() {
                    r is Ok && final(self).stack_spec() == old(self).stack_spec().update(
                        f.stack_start + index,
                        value,
                    )
                } else {
                    r == Err::<(), _>(Exception::InvalidVariable(index)) && final(self).stack_spec()
                        == old(self).stack_spec()
                },
                None => r == Err::<(), _>(Exception::InvalidVariable(index))
                    && final(self).stack_spec() == old(self).stack_spec(),
            },
    {
        match self.get_variable_stack_index(index) {
            Some(i) => {
                self.stack.set(i, value);
                Ok(())
            },
            None => Err(Exception::InvalidVariable(index)),
        }
    }

    /// Allocates a value on the heap. Collects first, with the value stack as
    /// the roots, when no slot is free or when more allocations were counted
    /// since the last collection than the threshold allows; the threshold is
    /// then set to the slots kept times the grow factor. Allocation is
    /// counted in slots: the heap is an arena of equal slots, so a slot stands
    /// for the unit that a byte count would measure.
    pub fn heap_alloc(&mut self, value: HeapValue) -> (r: Result<HeapAddress, Exception>)
        requires
            old(self).wf(),
        ensures
            final(self).wf(),
            final(self).same_tables(old(self)),
            final(self).stack_spec() == old(self).stack_spec(),
            final(self).frames() == old(self).frames(),
            final(self).ip_spec() == old(self).ip_spec(),
            final(self).heap_spec().slots().len() == old(self).heap_spec().slots().len(),
            forall|a: usize|
                slot_filled(old(self).heap_spec().slots(), a as int) && crate::heap::reachable(
                    old(self).heap_spec().slots(),
                    old(self).stack_spec(),
                    a,
                ) ==> final(self).heap_spec().slots()[a as int] == old(self).heap_spec().slots()[a as int],
            r matches Ok(h) ==> holds(final(self).heap_spec().slots(), h.0, value),
            r is Err ==> r == Err::<HeapAddress, _>(Exception::OutOfMemory),
            !old(self).gc_due() ==> r == Ok::<HeapAddress, Exception>(
                HeapAddress(old(self).heap_spec().first_free_spec()->Some_0),
            ),
            !old(self).gc_due() ==> final(self).heap_spec().slots() == old(self).heap_spec().slots().update(
                old(self).heap_spec().first_free_spec()->Some_0 as int,
                crate::heap::MemorySlot::Filled(value),
            ),
            alloc_room(*old(self)) ==> r is Ok,
    {
        let ghost before = self.heap.slots();
        if self.heap.is_full() || self.allocated > self.next_gc_threshold {
            let kept = self.heap.collect(&self.stack);
            self.allocated = kept;
            self.next_gc_threshold = if kept > usize::MAX / GC_GROW_FACTOR {
                usize::MAX
            } else if kept * GC_GROW_FACTOR < INITIAL_GC_THRESHOLD {
                INITIAL_GC_THRESHOLD
            } else {
                kept * GC_GROW_FACTOR
            };
        }
        let ghost mid = self.heap.slots();
        match self.heap.allocate(value) {
            Ok(h) => {
                proof {
                    assert forall|a: usize|
                        slot_filled(before, a as int) && crate::heap::reachable(
                            before,
                            self.stack@,
                            a,
                        ) implies self.heap.slots()[a as int] == before[a as int] by {
                        assert(mid[a as int] == before[a as int]);
                        assert(a != h.0);
                    }
                }
                if self.allocated < usize::MAX {
                    self.allocated = self.allocated + 1;
                }
                Ok(h)
            },
            Err(_) => {
                proof {
                    if exists|a: usize|
                        slot_filled(before, a as int) && !crate::heap::reachable(
                            before,
                            self.stack@,
                            a,
                        ) {
                        let a = choose|a: usize|
                            slot_filled(before, a as int) && !crate::heap::reachable(
                                before,
                                self.stack@,
                                a,
                            );
                        assert(crate::heap::slot_free(mid, a as int));
                    }
                }
                Err(Exception::OutOfMemory)
            },
        }
    }
}

/// An allocation finds room: a slot is free, or a collection frees one
/// because some filled slot cannot be reached from the value stack.
pub open spec fn alloc_room(vm: Vm) -> bool {
    ||| vm.heap_spec().first_free_spec() is Some
    ||| exists|a: usize|
        slot_filled(vm.heap_spec().slots(), a as int) && !crate::heap::reachable(
            vm.heap_spec().slots(),
            vm.stack_spec(),
            a,
        )
}

/// The elements of the heap list that a value refers to.
pub open spec fn list_at(m: Seq<crate::heap::MemorySlot>, v: Value) -> Option<Seq<Value>> {
    match v {
        Value::Object(h) => match crate::value_ops::heap_value(m, h.0) {
            Ok(HeapValue::List(xs)) => Some(xs@),
            _ => None,
        },
        _ => None,
    }
}

/// `m2` differs from `m` at most in the slot that `v` refers to.
pub open spec fn changed_only_at(
    m: Seq<crate::heap::MemorySlot>,
    m2: Seq<crate::heap::MemorySlot>,
    v: Value,
) -> bool {
    &&& m2.len() == m.len()
    &&& v is Object
    &&& forall|a: int| 0 <= a < m.len() && a != v->Object_0.0 ==> m2[a] == m[a]
}

/// APPEND_ELEMENT on stack `s` and heap `m` gives `s2` and `m2`: the top
/// value is appended to the list below it, and both are popped.
pub open spec fn appended(
    s: Seq<Value>,
    m: Seq<crate::heap::MemorySlot>,
    s2: Seq<Value>,
    m2: Seq<crate::heap::MemorySlot>,
) -> bool {
    let n = s.len();
    &&& n >= 2
    &&& list_at(m, s[n - 2]) is Some
    &&& list_at(m2, s[n - 2]) == Some(list_at(m, s[n - 2])->Some_0.push(s[n - 1]))
    &&& changed_only_at(m, m2, s[n - 2])
    &&& s2 == s.take(n - 2)
}

/// READ_ELEMENT on stack `s` and heap `m` gives `s2`: the list and the index
/// on top are replaced by the element that the index selects.
pub open spec fn element_read(s: Seq<Value>, m: Seq<crate::heap::MemorySlot>, s2: Seq<Value>) -> bool {
    let n = s.len();
    let xs = list_at(m, s[n - 2])->Some_0;
    let i = crate::number::index_spec(number_coercion(s[n - 1])->Some_0)->Some_0;
    &&& n >= 2
    &&& list_at(m, s[n - 2]) is Some
    &&& number_coercion(s[n - 1]) is Some
    &&& crate::number::index_spec(number_coercion(s[n - 1])->Some_0) is Some
    &&& 0 <= i < xs.len()
    &&& s2 == s.take(n - 2).push(xs[i])
}

/// WRITE_ELEMENT on stack `s` and heap `m` gives `s2` and `m2`: the top value
/// is written into the list two below it at the index between, and all
/// three are popped.
pub open spec fn element_written(
    s: Seq<Value>,
    m: Seq<crate::heap::MemorySlot>,
    s2: Seq<Value>,
    m2: Seq<crate::heap::MemorySlot>,
) -> bool {
    let n = s.len();
    let xs = list_at(m, s[n - 3])->Some_0;
    let i = crate::number::index_spec(number_coercion(s[n - 2])->Some_0)->Some_0;
    &&& n >= 3
    &&& list_at(m, s[n - 3]) is Some
    &&& number_coercion(s[n - 2]) is Some
    &&& crate::number::index_spec(number_coercion(s[n - 2])->Some_0) is Some
    &&& 0 <= i < xs.len()
    &&& list_at(m2, s[n - 3]) == Some(xs.update(i, s[n - 1]))
    &&& changed_only_at(m, m2, s[n - 3])
    &&& s2 == s.take(n - 3)
}

/// The object at the heap slot that a value refers to.
pub open spec fn object_at(m: Seq<crate::heap::MemorySlot>, v: Value) -> Option<Object> {
    match v {
        Value::Object(h) => match crate::value_ops::heap_value(m, h.0) {
            Ok(HeapValue::Object(o)) => Some(o),
            _ => None,
        },
        _ => None,
    }
}

/// `fields2` is `fields` with field `name` set to `f`: replaced in place
/// where it exists, appended otherwise.
pub open spec fn field_set(
    fields: Seq<(String, Field)>,
    name: Seq<char>,
    f: Field,
    fields2: Seq<(String, Field)>,
) -> bool {
    match crate::value_ops::find_field(fields, name) {
        Some(j) => fields2.len() == fields.len() && fields2[j].0@ == name && fields2[j].1 == f
            && forall|k: int| 0 <= k < fields.len() && k != j ==> fields2[k] == fields[k],
        None => fields2.len() == fields.len() + 1 && fields2.drop_last() == fields
            && fields2.last().0@ == name && fields2.last().1 == f,
    }
}

/// The field that setting `name` to `val` stores: an existing field keeps
/// its insertion index, a new one gets the next.
pub open spec fn new_field(fields: Seq<(String, Field)>, name: Seq<char>, val: Value, mutable: bool) -> Field {
    Field {
        val,
        mutable,
        index: match crate::value_ops::find_field(fields, name) {
            Some(j) => fields[j].1.index,
            None => fields.len() as u32,
        },
    }
}

/// ADD_FIELD (`write` false) or WRITE_FIELD (`write` true) on machine `old`
/// gives stack `s2` and heap `m2`: the field named by the second value from
/// the top is set to the top value in the object below, and all three are
/// popped. WRITE_FIELD needs the field to be mutable, or missing from a
/// dynamic object, and makes it mutable.
pub open spec fn field_stored(old: Vm, mutable: bool, write: bool, s2: Seq<Value>, m2: Seq<crate::heap::MemorySlot>) -> bool {
    let s = old.stack_spec();
    let m = old.heap_spec().slots();
    let n = s.len();
    let name = old.rendered(s[n - 2])->Ok_0;
    let o = object_at(m, s[n - 3])->Some_0;
    let o2 = object_at(m2, s[n - 3])->Some_0;
    let found = crate::value_ops::find_field(o.fields@, name);
    &&& n >= 3
    &&& old.rendered(s[n - 2]) is Ok
    &&& object_at(m, s[n - 3]) is Some
    &&& object_at(m2, s[n - 3]) is Some
    &&& changed_only_at(m, m2, s[n - 3])
    &&& o2.dynamic == o.dynamic
    &&& write ==> match found {
        Some(j) => o.fields@[j].1.mutable,
        None => o.dynamic,
    }
    &&& field_set(
        o.fields@,
        name,
        new_field(o.fields@, name, s[n - 1], if write { true } else { mutable }),
        o2.fields@,
    )
    &&& s2 == s.take(n - 3)
}

/// The name (rendered from the value `name_depth` below the top) and the
/// object (referred to by the value `obj_depth` below the top) that a field
/// instruction works on, where both can be had.
pub open spec fn field_operands(vm: Vm, name_depth: int, obj_depth: int) -> Option<(Seq<char>, Object)> {
    let s = vm.stack_spec();
    let n = s.len();
    if n > name_depth && n > obj_depth && vm.rendered(s[n - 1 - name_depth]) is Ok && object_at(
        vm.heap_spec().slots(),
        s[n - 1 - obj_depth],
    ) is Some {
        Some(
            (
                vm.rendered(s[n - 1 - name_depth])->Ok_0,
                object_at(vm.heap_spec().slots(), s[n - 1 - obj_depth])->Some_0,
            ),
        )
    } else {
        None
    }
}

/// The field name is a number whose text the host has not given yet.
pub open spec fn name_pending(vm: Vm, name_depth: int) -> bool {
    let s = vm.stack_spec();
    s.len() > name_depth && vm.rendered(s[s.len() - 1 - name_depth]) is Err && vm.rendered(
        s[s.len() - 1 - name_depth],
    )->Err_0 is NeedNumeral
}

/// ADD_FIELD (`write` false) or WRITE_FIELD (`write` true) can store its
/// field: the object and name can be had, a write finds the field mutable or
/// the object dynamic, and a new field still gets an index.
pub open spec fn field_store_ok(vm: Vm, write: bool) -> bool {
    let (name, o) = field_operands(vm, 1, 2)->Some_0;
    let found = crate::value_ops::find_field(o.fields@, name);
    &&& field_operands(vm, 1, 2) is Some
    &&& write ==> match found {
        Some(j) => o.fields@[j].1.mutable,
        None => o.dynamic,
    }
    &&& found is None ==> o.fields@.len() < u32::MAX
}

/// The value at `l` refers to a heap list and the value at `i` is a number
/// that selects one of its elements.
pub open spec fn element_in_range(s: Seq<Value>, m: Seq<crate::heap::MemorySlot>, l: int, i: int) -> bool {
    &&& 0 <= l < s.len()
    &&& 0 <= i < s.len()
    &&& list_at(m, s[l]) is Some
    &&& number_coercion(s[i]) is Some
    &&& crate::number::index_spec(number_coercion(s[i])->Some_0) is Some
    &&& 0 <= crate::number::index_spec(number_coercion(s[i])->Some_0)->Some_0 < list_at(m, s[l])->Some_0.len()
}

/// PUSH_FUNC of function `index` can run: the function exists, every
/// variable it captures can be read, a captures list can be allocated where
/// one is needed, and the stack has room for the closure.
pub open spec fn push_function_ok(vm: Vm, index: u32) -> bool {
    let caps = vm.functions_spec()[index as int].captures@;
    &&& index < vm.functions_spec().len()
    &&& forall|j: int| 0 <= j < caps.len() ==> captured_value(vm, #[trigger] caps[j]) is Some
    &&& caps.len() > 0 ==> alloc_room(vm)
    &&& vm.stack_spec().len() < vm.stack_capacity_spec()
}

/// A value refers to a heap slot that holds a box.
pub open spec fn is_box_ref(m: Seq<crate::heap::MemorySlot>, v: Value) -> bool {
    v is Object && crate::value_ops::heap_value(m, v->Object_0.0) is Ok
        && crate::value_ops::heap_value(m, v->Object_0.0)->Ok_0 is Box
}

/// BOX on machine `old` gave `new`: the top value is replaced by the address
/// of a new box that holds what the value unboxes to, which is itself no box
/// reference; the box takes the lowest free slot where there was one.
pub open spec fn boxed(old: Vm, new: Vm) -> bool {
    let s = old.stack_spec();
    let n = s.len();
    let m = old.heap_spec().slots();
    let u = unbox_spec(m, s.last());
    let top = new.stack_spec().last();
    &&& n > 0
    &&& u is Ok
    &&& !is_box_ref(m, u->Ok_0)
    &&& new.stack_spec().len() == n
    &&& new.stack_spec().drop_last() == s.drop_last()
    &&& top is Object
    &&& crate::value_ops::heap_value(new.heap_spec().slots(), top->Object_0.0) == Ok::<
        HeapValue,
        Exception,
    >(HeapValue::Box(u->Ok_0))
    &&& !old.gc_due() ==> top->Object_0.0
        == old.heap_spec().first_free_spec()->Some_0 && crate::heap::slot_free(
        m,
        top->Object_0.0 as int,
    )
}

/// READ_FIELD on machine `old` gives stack `s2`: the object and the name on
/// top are replaced by the value of the named field.
pub open spec fn field_read(old: Vm, s2: Seq<Value>) -> bool {
    let s = old.stack_spec();
    let n = s.len();
    let name = old.rendered(s[n - 1])->Ok_0;
    let o = object_at(old.heap_spec().slots(), s[n - 2])->Some_0;
    let j = crate::value_ops::find_field(o.fields@, name)->Some_0;
    &&& n >= 2
    &&& old.rendered(s[n - 1]) is Ok
    &&& object_at(old.heap_spec().slots(), s[n - 2]) is Some
    &&& crate::value_ops::find_field(o.fields@, name) is Some
    &&& s2 == s.take(n - 2).push(o.fields@[j].1.val)
}

/// `s2` is `s` with its `k` topmost values replaced by a fresh heap string
/// of `m2` holding `text`.
pub open spec fn string_pushed(
    s: Seq<Value>,
    k: nat,
    text: Seq<char>,
    s2: Seq<Value>,
    m2: Seq<crate::heap::MemorySlot>,
) -> bool {
    &&& s.len() >= k
    &&& s2.len() == s.len() - k + 1
    &&& s2.drop_last() == s.take(s.len() - k)
    &&& s2.last() is Object
    &&& crate::value_ops::heap_value(m2, s2.last()->Object_0.0) matches Ok(HeapValue::String(t))
        && t@ == text
}

/// The current value of variable `i` of the current function.
pub open spec fn captured_value(vm: Vm, i: u32) -> Option<Value> {
    match top_non_temp(vm.frames()) {
        Some(f) => if f.stack_start + i < vm.stack_spec().len() {
            Some(vm.stack_spec()[f.stack_start + i])
        } else {
            None
        },
        None => None,
    }
}

/// PUSH_FUNC of user function `index` on machine `old` gave `new`: a closure
/// of the function is pushed; where the function captures variables, the
/// closure's captures are a fresh heap list of their current values.
pub open spec fn closure_pushed(old: Vm, index: u32, new: Vm) -> bool {
    let caps = old.functions_spec()[index as int].captures@;
    let top = new.stack_spec().last();
    &&& index < old.functions_spec().len()
    &&& new.stack_spec().len() == old.stack_spec().len() + 1
    &&& new.stack_spec().drop_last() == old.stack_spec()
    &&& top is Function
    &&& top->Function_0.function == FuncId(index)
    &&& (caps.len() == 0 <==> top->Function_0.captures is None)
    &&& caps.len() > 0 ==> ({
        let xs = list_at(new.heap_spec().slots(), Value::Object(top->Function_0.captures->Some_0));
        &&& xs is Some
        &&& xs->Some_0.len() == caps.len()
        &&& forall|j: int| 0 <= j < caps.len() ==> captured_value(old, caps[j]) == Some(xs->Some_0[j])
    })
}

/// The `u32` operand after the opcode at `ip`.
pub open spec fn operand_u32(code: Seq<u8>, ip: usize) -> nat {
    be_u32(code.skip(ip + 1))
}

/// What the instruction at `old`'s position did in moving to `new`, for each
/// instruction that neither calls, returns, allocates nor asks the host.
pub open spec fn executed(old: Vm, new: Vm) -> bool {
    let c = old.code_spec();
    let ip = old.ip_spec();
    let s = old.stack_spec();
    let n = s.len();
    let op = c[ip as int];
    let same = new.frames() == old.frames() && new.heap_spec() == old.heap_spec();
    &&& ip < c.len()
    &&& op == opcode::NO_OP ==> same && new.stack_spec() == s && new.ip_spec() == ip + 1
    &&& op == opcode::JUMP ==> same && new.stack_spec() == s && new.ip_spec() == operand_u32(c, ip)
    &&& op == opcode::JUMP_IF ==> same && n > 0 && new.stack_spec() == s.drop_last()
        && new.ip_spec() == if bool_coercion(s.last()) {
        operand_u32(c, ip) as int
    } else {
        ip + 5
    }
    &&& op == opcode::PUSH_FLOAT ==> same && new.stack_spec() == s.push(
        Value::Number(be_u64(c.skip(ip + 1)) as u64),
    ) && new.ip_spec() == ip + 9
    &&& op == opcode::PUSH_BOOL ==> same && new.stack_spec() == s.push(Value::Bool(c[ip + 1] != 0))
        && new.ip_spec() == ip + 2
    &&& op == opcode::PUSH_NIL ==> same && new.stack_spec() == s.push(Value::Nil) && new.ip_spec()
        == ip + 1
    &&& op == opcode::PUSH_STRING ==> same && new.stack_spec() == s.push(
        Value::InternedString(operand_u32(c, ip) as usize),
    ) && new.ip_spec() == ip + 5
    &&& op == opcode::POP ==> same && n > 0 && new.stack_spec() == s.drop_last() && new.ip_spec()
        == ip + 1
    &&& op == opcode::DUP ==> same && n > 0 && new.stack_spec() == s.push(s.last())
        && new.ip_spec() == ip + 1
    &&& op == opcode::SWAP ==> same && n >= 2 && new.stack_spec() == s.take(n - 2).push(
        s[n - 1],
    ).push(s[n - 2]) && new.ip_spec() == ip + 1
    &&& op == opcode::NOT ==> same && n > 0 && new.stack_spec() == s.drop_last().push(
        Value::Bool(!bool_coercion(s.last())),
    ) && new.ip_spec() == ip + 1
    &&& op == opcode::AND ==> same && n >= 2 && new.stack_spec() == s.take(n - 2).push(
        Value::Bool(bool_coercion(s[n - 2]) && bool_coercion(s[n - 1])),
    ) && new.ip_spec() == ip + 1
    &&& op == opcode::OR ==> same && n >= 2 && new.stack_spec() == s.take(n - 2).push(
        Value::Bool(bool_coercion(s[n - 2]) || bool_coercion(s[n - 1])),
    ) && new.ip_spec() == ip + 1
    &&& op == opcode::LOAD_VAR ==> {
        let f = top_non_temp(old.frames())->Some_0;
        let at = f.stack_start + operand_u32(c, ip);
        same && top_non_temp(old.frames()) is Some && at < n && new.stack_spec() == s.push(s[at])
            && new.ip_spec() == ip + 5
    }
    &&& op == opcode::STORE_VAR ==> {
        let f = top_non_temp(old.frames())->Some_0;
        let at = f.stack_start + operand_u32(c, ip);
        same && n > 0 && top_non_temp(old.frames()) is Some && at < n - 1 && new.stack_spec()
            == s.drop_last().update(at, s.last()) && new.ip_spec() == ip + 5
    }
    &&& op == opcode::EQUAL ==> {
        let e = equal_spec(
            old.strings_spec(),
            old.heap_spec().slots(),
            s[n - 2],
            s[n - 1],
            MAX_DEPTH as nat,
        );
        same && n >= 2 && e is Ok && new.stack_spec() == s.take(n - 2).push(Value::Bool(e->Ok_0))
            && new.ip_spec() == ip + 1
    }
    &&& op == opcode::UNBOX ==> {
        let u = unbox_spec(old.heap_spec().slots(), s.last());
        same && n > 0 && u is Ok && new.stack_spec() == s.drop_last().push(u->Ok_0)
            && new.ip_spec() == ip + 1
    }
    &&& op == opcode::APPEND_ELEMENT ==> new.frames() == old.frames() && appended(
        s,
        old.heap_spec().slots(),
        new.stack_spec(),
        new.heap_spec().slots(),
    ) && new.ip_spec() == ip + 1
    &&& op == opcode::READ_ELEMENT ==> same && element_read(
        s,
        old.heap_spec().slots(),
        new.stack_spec(),
    ) && new.ip_spec() == ip + 1
    &&& op == opcode::WRITE_ELEMENT ==> new.frames() == old.frames() && element_written(
        s,
        old.heap_spec().slots(),
        new.stack_spec(),
        new.heap_spec().slots(),
    ) && new.ip_spec() == ip + 1
    &&& op == opcode::ADD_FIELD ==> new.frames() == old.frames() && field_stored(
        old,
        c[ip + 1] != 0,
        false,
        new.stack_spec(),
        new.heap_spec().slots(),
    ) && new.ip_spec() == ip + 2
    &&& op == opcode::WRITE_FIELD ==> new.frames() == old.frames() && field_stored(
        old,
        true,
        true,
        new.stack_spec(),
        new.heap_spec().slots(),
    ) && new.ip_spec() == ip + 1
    &&& op == opcode::READ_FIELD ==> same && field_read(old, new.stack_spec()) && new.ip_spec()
        == ip + 1
    &&& op == opcode::TO_STRING ==> new.frames() == old.frames() && n > 0 && old.rendered(
        s.last(),
    ) is Ok && string_pushed(
        s,
        1,
        old.rendered(s.last())->Ok_0,
        new.stack_spec(),
        new.heap_spec().slots(),
    ) && new.ip_spec() == ip + 1
    &&& op == opcode::CONCAT ==> new.frames() == old.frames() && n >= 2 && old.rendered(s[n - 2])
        is Ok && old.rendered(s[n - 1]) is Ok && string_pushed(
        s,
        2,
        old.rendered(s[n - 2])->Ok_0 + old.rendered(s[n - 1])->Ok_0,
        new.stack_spec(),
        new.heap_spec().slots(),
    ) && new.ip_spec() == ip + 1
    &&& op == opcode::PUSH_FUNC ==> new.frames() == old.frames() && closure_pushed(
        old,
        operand_u32(c, ip) as u32,
        new,
    ) && new.ip_spec() == ip + 5
    &&& op == opcode::PUSH_LIST ==> new.frames() == old.frames() && new.stack_spec().drop_last() == s
        && new.stack_spec().len() == n + 1 && list_at(
        new.heap_spec().slots(),
        new.stack_spec().last(),
    ) == Some(Seq::<Value>::empty()) && new.ip_spec() == ip + 1
    &&& op == opcode::PUSH_OBJECT ==> {
        let o = object_at(new.heap_spec().slots(), new.stack_spec().last())->Some_0;
        &&& new.frames() == old.frames()
        &&& new.stack_spec().len() == n + 1
        &&& new.stack_spec().drop_last() == s
        &&& object_at(new.heap_spec().slots(), new.stack_spec().last()) is Some
        &&& o.fields@.len() == 0
        &&& o.dynamic == (c[ip + 1] != 0)
        &&& new.ip_spec() == ip + 2
    }
    &&& op == opcode::BOX ==> new.frames() == old.frames() && boxed(old, new) && new.ip_spec()
        == ip + 1
    &&& op == opcode::ENTER_TEMP_FRAME ==> {
        &&& new.heap_spec() == old.heap_spec()
        &&& new.stack_spec() == s
        &&& new.ip_spec() == ip + 1
        &&& new.frames().len() == old.frames().len() + 1
        &&& new.frames().drop_last() == old.frames()
        &&& new.frames().last().stack_start == n
        &&& new.frames().last().kind is Temp
    }
    &&& op == opcode::EXIT_TEMP_FRAME ==> {
        &&& new.heap_spec() == old.heap_spec()
        &&& new.ip_spec() == ip + 1
        &&& old.frames().len() > 0
        &&& old.frames().last().kind is Temp
        &&& new.frames() == old.frames().drop_last()
        &&& new.stack_spec() == exit_temp_stack(s, old.frames().last().stack_start)
    }
}

/// Rendering went through, or stopped only for a numeral the host can give.
pub open spec fn render_ready(r: Result<Seq<char>, RenderStop>) -> bool {
    r is Ok || r->Err_0 is NeedNumeral
}

/// Whether `op` is one of the numeric operations that the host carries out.
pub open spec fn is_arith_opcode(op: u8) -> bool {
    op == opcode::ADD || op == opcode::SUB || op == opcode::MULT || op == opcode::DIV || op
        == opcode::LESS_THAN || op == opcode::GREATER_THAN
}

/// A double's bit pattern is one of the two zeros.
pub open spec fn is_zero(b: u64) -> bool {
    b & 0x7fff_ffff_ffff_ffffu64 == 0
}

/// The instruction at the machine's position can run: its operands lie
/// within the code, the stack holds what it takes and has room for what it
/// pushes, the values have the types it needs, and a heap slot is free where
/// it allocates.
pub open spec fn instruction_ok(vm: Vm) -> bool {
    let c = vm.code_spec();
    let ip = vm.ip_spec();
    let s = vm.stack_spec();
    let n = s.len();
    let m = vm.heap_spec().slots();
    let room = n < vm.stack_capacity_spec();
    let free = alloc_room(vm);
    let op = c[ip as int];
    let arg = operand_u32(c, ip);
    let frames = vm.frames();
    let f = top_non_temp(frames)->Some_0;
    let k = non_temp_index(frames, frames.len() - 1);
    &&& ip < c.len()
    &&& if op == opcode::NO_OP || op == opcode::RET {
        true
    } else if op == opcode::JUMP {
        ip + 5 <= c.len()
    } else if op == opcode::JUMP_IF {
        ip + 5 <= c.len() && n > 0
    } else if op == opcode::CALL {
        ip + 5 <= c.len() && arg < n && s[n - 1 - arg] is Function
    } else if op == opcode::ENTER_TEMP_FRAME {
        k >= 0 && frames[k].kind is UserFunction && frames.len() < vm.call_stack_capacity_spec()
    } else if op == opcode::EXIT_TEMP_FRAME {
        frames.len() > 0 && frames.last().kind is Temp
    } else if op == opcode::PUSH_FLOAT {
        ip + 9 <= c.len() && room
    } else if op == opcode::PUSH_BOOL {
        ip + 2 <= c.len() && room
    } else if op == opcode::PUSH_FUNC {
        ip + 5 <= c.len() && push_function_ok(vm, arg as u32)
    } else if op == opcode::PUSH_NIL {
        room
    } else if op == opcode::PUSH_STRING {
        ip + 5 <= c.len() && room
    } else if op == opcode::PUSH_OBJECT {
        ip + 2 <= c.len() && room && free
    } else if op == opcode::PUSH_LIST {
        room && free
    } else if op == opcode::POP {
        n > 0
    } else if op == opcode::DUP {
        n > 0 && room
    } else if op == opcode::SWAP {
        n >= 2
    } else if op == opcode::STORE_VAR {
        ip + 5 <= c.len() && n > 0 && top_non_temp(frames) is Some && f.stack_start + arg < n - 1
    } else if op == opcode::LOAD_VAR {
        ip + 5 <= c.len() && top_non_temp(frames) is Some && f.stack_start + arg < n && room
    } else if is_arith_opcode(op) {
        n >= 2 && number_coercion(s[n - 2]) is Some && number_coercion(s[n - 1]) is Some && !(op
            == opcode::DIV && is_zero(number_coercion(s[n - 1])->Some_0))
    } else if op == opcode::EQUAL {
        n >= 2 && equal_spec(vm.strings_spec(), m, s[n - 2], s[n - 1], MAX_DEPTH as nat) is Ok
    } else if op == opcode::NOT {
        n > 0
    } else if op == opcode::AND || op == opcode::OR {
        n >= 2
    } else if op == opcode::CONCAT {
        n >= 2 && render_ready(vm.rendered(s[n - 2])) && (vm.rendered(s[n - 2]) is Ok
            ==> render_ready(vm.rendered(s[n - 1]))) && (vm.rendered(s[n - 2]) is Ok
            && vm.rendered(s[n - 1]) is Ok ==> free)
    } else if op == opcode::TO_STRING {
        n > 0 && render_ready(vm.rendered(s.last())) && (vm.rendered(s.last()) is Ok ==> free)
    } else if op == opcode::ADD_FIELD {
        ip + 2 <= c.len() && n >= 3 && (name_pending(vm, 1) || field_store_ok(vm, false))
    } else if op == opcode::WRITE_FIELD {
        n >= 3 && (name_pending(vm, 1) || field_store_ok(vm, true))
    } else if op == opcode::READ_FIELD {
        n >= 2 && (name_pending(vm, 0) || (field_operands(vm, 0, 1) is Some
            && crate::value_ops::find_field(
            field_operands(vm, 0, 1)->Some_0.1.fields@,
            field_operands(vm, 0, 1)->Some_0.0,
        ) is Some))
    } else if op == opcode::APPEND_ELEMENT {
        n >= 2 && list_at(m, s[n - 2]) is Some
    } else if op == opcode::WRITE_ELEMENT {
        n >= 3 && element_in_range(s, m, n - 3, n - 2)
    } else if op == opcode::READ_ELEMENT {
        n >= 2 && element_in_range(s, m, n - 2, n - 1)
    } else if op == opcode::BOX {
        n > 0 && unbox_spec(m, s.last()) is Ok && !is_box_ref(m, unbox_spec(m, s.last())->Ok_0)
            && free
    } else if op == opcode::UNBOX {
        n > 0 && unbox_spec(m, s.last()) is Ok
    } else {
        false
    }
}

/// The instructions about control, the stack and variables.
pub open spec fn is_control_opcode(op: u8) -> bool {
    op == opcode::NO_OP || op == opcode::JUMP || op == opcode::JUMP_IF || op == opcode::CALL || op
        == opcode::RET || op == opcode::ENTER_TEMP_FRAME || op == opcode::EXIT_TEMP_FRAME || op
        == opcode::PUSH_FLOAT || op == opcode::PUSH_BOOL || op == opcode::PUSH_FUNC || op
        == opcode::PUSH_NIL || op == opcode::PUSH_STRING || op == opcode::PUSH_OBJECT || op
        == opcode::PUSH_LIST || op == opcode::POP || op == opcode::DUP || op == opcode::SWAP || op
        == opcode::STORE_VAR || op == opcode::LOAD_VAR
}

/// The instruction at the machine's position renders a value to text and
/// stops at a number whose text, `b`'s, the host has not given yet.
pub open spec fn numeral_missing(vm: Vm, b: u64) -> bool {
    let c = vm.code_spec();
    let ip = vm.ip_spec();
    let s = vm.stack_spec();
    let n = s.len();
    let op = c[ip as int];
    let stop = Err::<Seq<char>, RenderStop>(RenderStop::NeedNumeral(b));
    &&& ip < c.len()
    &&& {
        ||| op == opcode::TO_STRING && n > 0 && vm.rendered(s[n - 1]) == stop
        ||| op == opcode::CONCAT && n >= 2 && (vm.rendered(s[n - 2]) == stop || (vm.rendered(
            s[n - 2],
        ) is Ok && vm.rendered(s[n - 1]) == stop))
        ||| (op == opcode::ADD_FIELD || op == opcode::WRITE_FIELD) && n >= 3 && vm.rendered(s[n - 2])
            == stop
        ||| op == opcode::READ_FIELD && n >= 2 && vm.rendered(s[n - 1]) == stop
    }
}

/// A numeric operation that the host carries out on doubles.
#[derive(Debug, Clone, Copy, PartialEq, Eq, Structural)]
pub enum ArithOp {
    Add,
    Sub,
    Mult,
    Div,
    LessThan,
    GreaterThan,
}

/// The opcode of a numeric operation.
pub open spec fn arith_opcode(op: ArithOp) -> u8 {
    match op {
        ArithOp::Add => opcode::ADD,
        ArithOp::Sub => opcode::SUB,
        ArithOp::Mult => opcode::MULT,
        ArithOp::Div => opcode::DIV,
        ArithOp::LessThan => opcode::LESS_THAN,
        ArithOp::GreaterThan => opcode::GREATER_THAN,
    }
}

/// What one instruction leaves for the machine to do next.
#[derive(Debug, Clone, Copy, PartialEq, Eq, Structural)]
pub enum Flow {
    Continue,
    Call { closure: Closure, arg_count: u32 },
    Return,
    /// Apply `op` to `lhs` and `rhs`, the two operands that were on top of the
    /// stack with `rhs` topmost, and push the result.
    Arith { op: ArithOp, lhs: u64, rhs: u64 },
    /// The text of this number is needed; the instruction runs again once it
    /// is known.
    NeedNumeral(u64),
}

/// The result of rendering a value, with the instruction rewound to run
/// again where a numeral is missing.
enum Rendered {
    Text(String),
    Missing(u64),
}

impl Vm {
    /// Renders a value; where a numeral is missing, moves back to the start
    /// of the current instruction.
    fn render_or_rewind(&mut self, v: Value, start: usize) -> (r: Result<Rendered, Exception>)
        requires
            old(self).wf(),
        ensures
            final(self).wf(),
            final(self).same_tables(old(self)),
            final(self).stack_spec() == old(self).stack_spec(),
            final(self).frames() == old(self).frames(),
            final(self).heap_spec() == old(self).heap_spec(),
            r matches Ok(Rendered::Text(t)) ==> final(self).ip_spec() == old(self).ip_spec()
                && old(self).rendered(v) == Ok::<Seq<char>, RenderStop>(t@),
            r matches Ok(Rendered::Missing(b)) ==> final(self).ip_spec() == start && old(self).rendered(v) == Err::<Seq<char>, _>(RenderStop::NeedNumeral(b)),
            r matches Err(e) ==> old(self).rendered(v) == Err::<Seq<char>, _>(RenderStop::Failed(e)),
    {
        match render(&self.strings, &self.functions, &self.heap, &self.numerals, v) {
            Ok(s) => Ok(Rendered::Text(s)),
            Err(RenderStop::NeedNumeral(b)) => {
                self.code.jump(start);
                Ok(Rendered::Missing(b))
            },
            Err(RenderStop::Failed(e)) => Err(e),
        }
    }

    /// Pops the two topmost values, coerced to numbers: the lower one first.
    fn pop_numbers(&mut self) -> (r: Result<(u64, u64), Exception>)
        requires
            old(self).wf(),
        ensures
            final(self).wf(),
            final(self).same_tables(old(self)),
            final(self).frames() == old(self).frames(),
            final(self).heap_spec() == old(self).heap_spec(),
            final(self).ip_spec() == old(self).ip_spec(),
            r matches Ok((lhs, rhs)) ==> {
                let s = old(self).stack_spec();
                &&& s.len() >= 2
                &&& number_coercion(s[s.len() - 2]) == Some(lhs)
                &&& number_coercion(s[s.len() - 1]) == Some(rhs)
                &&& final(self).stack_spec() == s.take(s.len() - 2)
            },
            ({
                let s = old(self).stack_spec();
                s.len() >= 2 && number_coercion(s[s.len() - 2]) is Some && number_coercion(
                    s[s.len() - 1],
                ) is Some
            }) ==> r is Ok,
    {
        let ghost s = self.stack@;
        let rhs_v = self.pop_value()?;
        let rhs = coerce_to_number(&self.heap, rhs_v)?;
        let lhs_v = self.pop_value()?;
        let lhs = coerce_to_number(&self.heap, lhs_v)?;
        assert(self.stack@ =~= s.take(s.len() - 2));
        Ok((lhs, rhs))
    }

    /// Pops the two topmost values, coerced to booleans: the lower one first.
    fn pop_bools(&mut self) -> (r: Result<(bool, bool), Exception>)
        requires
            old(self).wf(),
        ensures
            final(self).wf(),
            final(self).same_tables(old(self)),
            final(self).frames() == old(self).frames(),
            final(self).heap_spec() == old(self).heap_spec(),
            final(self).ip_spec() == old(self).ip_spec(),
            r matches Ok((x, y)) ==> {
                let s = old(self).stack_spec();
                &&& s.len() >= 2
                &&& x == bool_coercion(s[s.len() - 2])
                &&& y == bool_coercion(s[s.len() - 1])
                &&& final(self).stack_spec() == s.take(s.len() - 2)
            },
            old(self).stack_spec().len() >= 2 ==> r is Ok,
    {
        let ghost s = self.stack@;
        let b = self.pop_value()?;
        let a = self.pop_value()?;
        assert(self.stack@ =~= s.take(s.len() - 2));
        Ok((coerce_to_bool(a), coerce_to_bool(b)))
    }

    /// Reads a `u8` operand.
    fn read_u8(&mut self) -> (r: Result<u8, Exception>)
        requires
            old(self).wf(),
        ensures
            final(self).wf(),
            final(self).same_tables(old(self)),
            final(self).frames() == old(self).frames(),
            final(self).heap_spec() == old(self).heap_spec(),
            final(self).stack_spec() == old(self).stack_spec(),
            r matches Ok(x) ==> old(self).ip_spec() < old(self).code_spec().len() && x == old(self).code_spec()[old(self).ip_spec() as int] && final(self).ip_spec() == old(self).ip_spec() + 1,
            old(self).ip_spec() < old(self).code_spec().len() ==> r is Ok,
    {
        self.code.read_byte()
    }

    /// Reads a `u32` operand.
    fn read_u32(&mut self) -> (r: Result<u32, Exception>)
        requires
            old(self).wf(),
        ensures
            final(self).wf(),
            final(self).same_tables(old(self)),
            final(self).frames() == old(self).frames(),
            final(self).heap_spec() == old(self).heap_spec(),
            final(self).stack_spec() == old(self).stack_spec(),
            r matches Ok(x) ==> old(self).ip_spec() + 4 <= old(self).code_spec().len() && x
                == be_u32(old(self).code_spec().skip(old(self).ip_spec() as int)) && final(self).ip_spec() == old(self).ip_spec() + 4,
            old(self).ip_spec() + 4 <= old(self).code_spec().len() ==> r is Ok,
    {
        self.code.read_u32()
    }

    /// Takes the object at an address out of the heap to change it.
    fn take_object(&mut self, h: HeapAddress) -> (r: Result<Object, Exception>)
        requires
            old(self).wf(),
        ensures
            final(self).wf(),
            final(self).same_tables(old(self)),
            final(self).frames() == old(self).frames(),
            final(self).stack_spec() == old(self).stack_spec(),
            final(self).ip_spec() == old(self).ip_spec(),
            r matches Ok(o) ==> crate::value_ops::heap_value(old(self).heap_spec().slots(), h.0)
                == Ok::<HeapValue, Exception>(HeapValue::Object(o)) && final(self).heap_spec().slots()
                == old(self).heap_spec().slots().update(
                h.0 as int,
                crate::heap::MemorySlot::Filled(HeapValue::Box(Value::Nil)),
            ),
            crate::value_ops::heap_value(old(self).heap_spec().slots(), h.0) matches Ok(
                HeapValue::Object(_),
            ) ==> r is Ok,
    {
        match self.heap.replace(h, HeapValue::Box(Value::Nil)) {
            Ok(HeapValue::Object(o)) => Ok(o),
            Ok(other) => {
                let _ = self.heap.set(h, other);
                Err(Exception::CoercionError(crate::exception::CoercionError::new(crate::value::Type::List, crate::value::Type::Object)))
            },
            Err(e) => Err(heap_error(e)),
        }
    }

    /// Takes the list at an address out of the heap to change it; a box
    /// stands in its slot until it is put back.
    fn take_list(&mut self, h: HeapAddress) -> (r: Result<Vec<Value>, Exception>)
        requires
            old(self).wf(),
        ensures
            final(self).wf(),
            final(self).same_tables(old(self)),
            final(self).frames() == old(self).frames(),
            final(self).stack_spec() == old(self).stack_spec(),
            final(self).ip_spec() == old(self).ip_spec(),
            r matches Ok(xs) ==> crate::value_ops::heap_value(old(self).heap_spec().slots(), h.0)
                == Ok::<HeapValue, Exception>(HeapValue::List(xs)) && final(self).heap_spec().slots()
                == old(self).heap_spec().slots().update(
                h.0 as int,
                crate::heap::MemorySlot::Filled(HeapValue::Box(Value::Nil)),
            ),
            crate::value_ops::heap_value(old(self).heap_spec().slots(), h.0) matches Ok(
                HeapValue::List(_),
            ) ==> r is Ok,
    {
        match self.heap.replace(h, HeapValue::Box(Value::Nil)) {
            Ok(HeapValue::List(xs)) => Ok(xs),
            Ok(other) => {
                let _ = self.heap.set(h, other);
                Err(Exception::CoercionError(crate::exception::CoercionError::new(crate::value::Type::Object, crate::value::Type::List)))
            },
            Err(e) => Err(heap_error(e)),
        }
    }

    /// Puts a changed value back at its address.
    fn put_back(&mut self, h: HeapAddress, v: HeapValue) -> (r: Result<(), Exception>)
        requires
            old(self).wf(),
        ensures
            final(self).wf(),
            final(self).same_tables(old(self)),
            final(self).frames() == old(self).frames(),
            final(self).stack_spec() == old(self).stack_spec(),
            final(self).ip_spec() == old(self).ip_spec(),
            crate::heap::slot_filled(old(self).heap_spec().slots(), h.0 as int) ==> r is Ok
                && final(self).heap_spec().slots() == old(self).heap_spec().slots().update(
                h.0 as int,
                crate::heap::MemorySlot::Filled(v),
            ),
    {
        match self.heap.set(h, v) {
            Ok(()) => Ok(()),
            Err(e) => Err(heap_error(e)),
        }
    }

    /// Pushes a closure of user function `index`, capturing the current
    /// values of the variables that the function's metadata names.
    fn push_function(&mut self, index: u32) -> (r: Result<(), Exception>)
        requires
            old(self).wf(),
        ensures
            final(self).wf(),
            final(self).same_tables(old(self)),
            final(self).frames() == old(self).frames(),
            final(self).ip_spec() == old(self).ip_spec(),
            r is Ok ==> closure_pushed(*old(self), index, *final(self)),
            push_function_ok(*old(self), index) ==> r is Ok,
    {
        if index as usize >= self.functions.len() {
            return Err(Exception::InvalidUserFunction(index));
        }
        let n = self.functions[index as usize].captures.len();
        let captures = if n > 0 {
            let mut values: Vec<Value> = Vec::new();
            let mut k: usize = 0;
            while k < n
                invariant
                    k <= n,
                    self.wf(),
                    self.same_tables(old(self)),
                    self.frames() == old(self).frames(),
                    self.ip_spec() == old(self).ip_spec(),
                    (index as int) < self.functions_spec().len(),
                    n == self.functions_spec()[index as int].captures@.len(),
                    self.stack_spec() == old(self).stack_spec(),
                    self.heap_spec() == old(self).heap_spec(),
                    values@.len() == k,
                    forall|j: int|
                        0 <= j < k ==> captured_value(
                            *old(self),
                            self.functions_spec()[index as int].captures@[j],
                        ) == Some(#[trigger] values@[j]),
                decreases n - k,
            {
                let var = self.functions[index as usize].captures[k];
                let v = self.read_variable(var as usize)?;
                values.push(v);
                k = k + 1;
            }
            let h = self.heap_alloc(HeapValue::List(values))?;
            Some(h)
        } else {
            None
        };
        let ghost st = self.stack@;
        let r = self.push_value(Value::Function(Closure { function: FuncId(index), captures }));
        proof {
            if r is Ok {
                assert(self.stack@.drop_last() =~= st);
            }
        }
        r
    }

    /// Inserts or replaces a field of the object at the third value from the
    /// top, named by the second, holding the top value; pops all three.
    fn add_field(&mut self, mutable: bool, start: usize) -> (r: Result<Flow, Exception>)
        requires
            old(self).wf(),
        ensures
            final(self).wf(),
            final(self).same_tables(old(self)),
            final(self).frames() == old(self).frames(),
            r matches Ok(Flow::Continue) ==> final(self).ip_spec() == old(self).ip_spec()
                && field_stored(
                *old(self),
                mutable,
                false,
                final(self).stack_spec(),
                final(self).heap_spec().slots(),
            ),
            r matches Ok(f) ==> f is Continue || f is NeedNumeral,
            r matches Ok(Flow::NeedNumeral(_)) ==> final(self).stack_spec() == old(self).stack_spec()
                && final(self).heap_spec() == old(self).heap_spec() && final(self).ip_spec() == start,
            r matches Ok(Flow::NeedNumeral(b)) ==> old(self).stack_spec().len() >= 3 && old(self).rendered(
                old(self).stack_spec()[old(self).stack_spec().len() - 2],
            ) == Err::<Seq<char>, _>(RenderStop::NeedNumeral(b)),
            r is Err ==> final(self).heap_spec() == old(self).heap_spec() && final(self).stack_spec()
                == old(self).stack_spec(),
            old(self).stack_spec().len() >= 3 && (name_pending(*old(self), 1) || field_store_ok(
                *old(self),
                false,
            )) ==> r is Ok,
    {
        let val = self.peek(0)?;
        let name_v = self.peek(1)?;
        let obj_v = self.peek(2)?;
        let name = match self.render_or_rewind(name_v, start)? {
            Rendered::Text(s) => s,
            Rendered::Missing(b) => return Ok(Flow::NeedNumeral(b)),
        };
        let h = coerce_to_object(&self.heap, obj_v)?;
        let (found, field_mutable, dynamic, len) = match get_heap_value(&self.heap, h)? {
            HeapValue::Object(o) => match lookup_field(&o.fields, &name) {
                Some(j) => {
                    proof {
                        crate::value_ops::lemma_find_field_range(o.fields@, name@);
                    }
                    (true, o.fields[j].1.mutable, o.dynamic, o.fields.len())
                },
                None => (false, false, o.dynamic, o.fields.len()),
            },
            _ => return Err(Exception::MissingField(name)),
        };
        if !found && len >= u32::MAX as usize {
            return Err(Exception::OutOfMemory);
        }
        let ghost s0 = self.stack@;
        self.pop_value()?;
        self.pop_value()?;
        self.pop_value()?;
        assert(self.stack@ =~= s0.take(s0.len() - 3));
        let mut o = self.take_object(h)?;
        let ghost fields0 = o.fields@;
        proof {
            crate::value_ops::lemma_find_field_range(o.fields@, name@);
        }
        match lookup_field(&o.fields, &name) {
            Some(j) => {
                let index = o.fields[j].1.index;
                o.fields.set(j, (name, Field { val, mutable: mutable, index }));
            },
            None => {
                let index = o.fields.len() as u32;
                o.fields.push((name, Field { val, mutable: mutable, index }));
            },
        }
        proof {
            if crate::value_ops::find_field(fields0, name@) is None {
                assert(o.fields@.drop_last() =~= fields0);
            }
        }
        self.put_back(h, HeapValue::Object(o))?;
        Ok(Flow::Continue)
    }

    /// Writes a field of the object at the third value from the top, named by
    /// the second, with the top value; pops all three.
    fn write_field(&mut self, start: usize) -> (r: Result<Flow, Exception>)
        requires
            old(self).wf(),
        ensures
            final(self).wf(),
            final(self).same_tables(old(self)),
            final(self).frames() == old(self).frames(),
            r matches Ok(Flow::Continue) ==> final(self).ip_spec() == old(self).ip_spec()
                && field_stored(
                *old(self),
                true,
                true,
                final(self).stack_spec(),
                final(self).heap_spec().slots(),
            ),
            r matches Ok(f) ==> f is Continue || f is NeedNumeral,
            r matches Ok(Flow::NeedNumeral(_)) ==> final(self).stack_spec() == old(self).stack_spec()
                && final(self).heap_spec() == old(self).heap_spec() && final(self).ip_spec() == start,
            r matches Ok(Flow::NeedNumeral(b)) ==> old(self).stack_spec().len() >= 3 && old(self).rendered(
                old(self).stack_spec()[old(self).stack_spec().len() - 2],
            ) == Err::<Seq<char>, _>(RenderStop::NeedNumeral(b)),
            r is Err ==> final(self).heap_spec() == old(self).heap_spec() && final(self).stack_spec()
                == old(self).stack_spec(),
            old(self).stack_spec().len() >= 3 && (name_pending(*old(self), 1) || field_store_ok(
                *old(self),
                true,
            )) ==> r is Ok,
            ({
                let (name, o) = field_operands(*old(self), 1, 2)->Some_0;
                field_operands(*old(self), 1, 2) is Some && crate::value_ops::find_field(
                    o.fields@,
                    name,
                ) is Some && !o.fields@[crate::value_ops::find_field(o.fields@, name)->Some_0].1.mutable
            }) ==> (r matches Err(Exception::WriteToImmutableField(t)) && t@ == field_operands(
                *old(self),
                1,
                2,
            )->Some_0.0),
            ({
                let (name, o) = field_operands(*old(self), 1, 2)->Some_0;
                field_operands(*old(self), 1, 2) is Some && crate::value_ops::find_field(
                    o.fields@,
                    name,
                ) is None && !o.dynamic
            }) ==> (r matches Err(Exception::MissingField(t)) && t@ == field_operands(
                *old(self),
                1,
                2,
            )->Some_0.0),
    {
        let val = self.peek(0)?;
        let name_v = self.peek(1)?;
        let obj_v = self.peek(2)?;
        let name = match self.render_or_rewind(name_v, start)? {
            Rendered::Text(s) => s,
            Rendered::Missing(b) => return Ok(Flow::NeedNumeral(b)),
        };
        let h = coerce_to_object(&self.heap, obj_v)?;
        let (found, field_mutable, dynamic, len) = match get_heap_value(&self.heap, h)? {
            HeapValue::Object(o) => match lookup_field(&o.fields, &name) {
                Some(j) => {
                    proof {
                        crate::value_ops::lemma_find_field_range(o.fields@, name@);
                    }
                    (true, o.fields[j].1.mutable, o.dynamic, o.fields.len())
                },
                None => (false, false, o.dynamic, o.fields.len()),
            },
            _ => return Err(Exception::MissingField(name)),
        };
        if found && !field_mutable {
            return Err(Exception::WriteToImmutableField(name));
        }
        if !found && !dynamic {
            return Err(Exception::MissingField(name));
        }
        if !found && len >= u32::MAX as usize {
            return Err(Exception::OutOfMemory);
        }
        let ghost s0 = self.stack@;
        self.pop_value()?;
        self.pop_value()?;
        self.pop_value()?;
        assert(self.stack@ =~= s0.take(s0.len() - 3));
        let mut o = self.take_object(h)?;
        let ghost fields0 = o.fields@;
        proof {
            crate::value_ops::lemma_find_field_range(o.fields@, name@);
        }
        match lookup_field(&o.fields, &name) {
            Some(j) => {
                let index = o.fields[j].1.index;
                o.fields.set(j, (name, Field { val, mutable: true, index }));
            },
            None => {
                let index = o.fields.len() as u32;
                o.fields.push((name, Field { val, mutable: true, index }));
            },
        }
        proof {
            if crate::value_ops::find_field(fields0, name@) is None {
                assert(o.fields@.drop_last() =~= fields0);
            }
        }
        self.put_back(h, HeapValue::Object(o))?;
        Ok(Flow::Continue)
    }

    /// Replaces the object and the name on top of the stack by the value of
    /// the named field.
    fn read_field(&mut self, start: usize) -> (r: Result<Flow, Exception>)
        requires
            old(self).wf(),
        ensures
            final(self).wf(),
            final(self).same_tables(old(self)),
            final(self).frames() == old(self).frames(),
            r matches Ok(Flow::Continue) ==> final(self).ip_spec() == old(self).ip_spec()
                && final(self).heap_spec() == old(self).heap_spec() && field_read(
                *old(self),
                final(self).stack_spec(),
            ),
            r is Err ==> final(self).heap_spec() == old(self).heap_spec(),
            old(self).stack_spec().len() >= 2 && (name_pending(*old(self), 0) || (field_operands(
                *old(self),
                0,
                1,
            ) is Some && crate::value_ops::find_field(
                field_operands(*old(self), 0, 1)->Some_0.1.fields@,
                field_operands(*old(self), 0, 1)->Some_0.0,
            ) is Some)) ==> r is Ok,
            ({
                let (name, o) = field_operands(*old(self), 0, 1)->Some_0;
                field_operands(*old(self), 0, 1) is Some && crate::value_ops::find_field(
                    o.fields@,
                    name,
                ) is None
            }) ==> (r matches Err(Exception::MissingField(t)) && t@ == field_operands(
                *old(self),
                0,
                1,
            )->Some_0.0),
            r matches Ok(f) ==> f is Continue || f is NeedNumeral,
            r matches Ok(Flow::NeedNumeral(_)) ==> final(self).stack_spec() == old(self).stack_spec()
                && final(self).heap_spec() == old(self).heap_spec() && final(self).ip_spec() == start,
            r matches Ok(Flow::NeedNumeral(b)) ==> old(self).stack_spec().len() >= 2 && old(self).rendered(
                old(self).stack_spec()[old(self).stack_spec().len() - 1],
            ) == Err::<Seq<char>, _>(RenderStop::NeedNumeral(b)),
    {
        let name_v = self.peek(0)?;
        let obj_v = self.peek(1)?;
        let name = match self.render_or_rewind(name_v, start)? {
            Rendered::Text(s) => s,
            Rendered::Missing(b) => return Ok(Flow::NeedNumeral(b)),
        };
        let h = coerce_to_object(&self.heap, obj_v)?;
        let val = match get_heap_value(&self.heap, h)? {
            HeapValue::Object(o) => match lookup_field(&o.fields, &name) {
                Some(j) => {
                    proof {
                        crate::value_ops::lemma_find_field_range(o.fields@, name@);
                    }
                    o.fields[j].1.val
                },
                None => return Err(Exception::MissingField(name)),
            },
            _ => return Err(Exception::MissingField(name)),
        };
        let ghost s0 = self.stack@;
        self.pop_value()?;
        self.pop_value()?;
        self.push_value(val)?;
        assert(self.stack@ =~= s0.take(s0.len() - 2).push(val));
        Ok(Flow::Continue)
    }

    /// Appends the top value to the list below it; pops both.
    fn append_element(&mut self) -> (r: Result<Flow, Exception>)
        requires
            old(self).wf(),
        ensures
            final(self).wf(),
            final(self).same_tables(old(self)),
            final(self).frames() == old(self).frames(),
            final(self).ip_spec() == old(self).ip_spec(),
            r matches Ok(f) ==> f is Continue,
            old(self).stack_spec().len() >= 2 && list_at(
                old(self).heap_spec().slots(),
                old(self).stack_spec()[old(self).stack_spec().len() - 2],
            ) is Some ==> r is Ok,
            r is Ok ==> appended(
                old(self).stack_spec(),
                old(self).heap_spec().slots(),
                final(self).stack_spec(),
                final(self).heap_spec().slots(),
            ),
    {
        let val = self.peek(0)?;
        let list_v = self.peek(1)?;
        let h = coerce_to_list(&self.heap, list_v)?;
        let ghost st = self.stack@;
        self.pop_value()?;
        self.pop_value()?;
        assert(self.stack@ =~= st.take(st.len() - 2));
        let mut xs = self.take_list(h)?;
        xs.push(val);
        self.put_back(h, HeapValue::List(xs))?;
        Ok(Flow::Continue)
    }

    /// The list element that an index value selects.
    fn element_index(&self, raw: u64, len: usize) -> (r: Result<usize, Exception>)
        ensures
            r matches Ok(i) ==> i < len && crate::number::index_spec(raw) == Some(i as int),
            r is Err ==> match crate::number::index_spec(raw) {
                None => r == Err::<usize, _>(Exception::InvalidIndex(raw)),
                Some(i) => (i < 0 || i >= len) && r == Err::<usize, _>(
                    Exception::OutOfBoundsIndex(raw, len),
                ),
            },
            (crate::number::index_spec(raw) is Some && 0 <= crate::number::index_spec(raw)->Some_0
                < len) ==> r is Ok,
    {
        match crate::number::to_integer(raw) {
            None => Err(Exception::InvalidIndex(raw)),
            Some(i) => if i < 0 || i >= len as i128 {
                Err(Exception::OutOfBoundsIndex(raw, len))
            } else {
                Ok(i as usize)
            },
        }
    }

    /// Writes the top value into the list two below it at the index between;
    /// pops all three.
    fn write_element(&mut self) -> (r: Result<Flow, Exception>)
        requires
            old(self).wf(),
        ensures
            final(self).wf(),
            final(self).same_tables(old(self)),
            final(self).frames() == old(self).frames(),
            final(self).ip_spec() == old(self).ip_spec(),
            r matches Ok(f) ==> f is Continue,
            old(self).stack_spec().len() >= 3 && element_in_range(
                old(self).stack_spec(),
                old(self).heap_spec().slots(),
                old(self).stack_spec().len() - 3,
                old(self).stack_spec().len() - 2,
            ) ==> r is Ok,
            r is Ok ==> element_written(
                old(self).stack_spec(),
                old(self).heap_spec().slots(),
                final(self).stack_spec(),
                final(self).heap_spec().slots(),
            ),
    {
        let val = self.peek(0)?;
        let index_v = self.peek(1)?;
        let list_v = self.peek(2)?;
        let raw = coerce_to_number(&self.heap, index_v)?;
        let h = coerce_to_list(&self.heap, list_v)?;
        let len = match get_heap_value(&self.heap, h)? {
            HeapValue::List(xs) => xs.len(),
            _ => 0,
        };
        let i = self.element_index(raw, len)?;
        let ghost st = self.stack@;
        self.pop_value()?;
        self.pop_value()?;
        self.pop_value()?;
        assert(self.stack@ =~= st.take(st.len() - 3));
        let mut xs = self.take_list(h)?;
        if i < xs.len() {
            xs.set(i, val);
        }
        self.put_back(h, HeapValue::List(xs))?;
        Ok(Flow::Continue)
    }

    /// Replaces the list and the index on top of the stack by the element.
    fn read_element(&mut self) -> (r: Result<Flow, Exception>)
        requires
            old(self).wf(),
        ensures
            final(self).wf(),
            final(self).same_tables(old(self)),
            final(self).frames() == old(self).frames(),
            final(self).ip_spec() == old(self).ip_spec(),
            final(self).heap_spec() == old(self).heap_spec(),
            r matches Ok(f) ==> f is Continue,
            old(self).stack_spec().len() >= 2 && element_in_range(
                old(self).stack_spec(),
                old(self).heap_spec().slots(),
                old(self).stack_spec().len() - 2,
                old(self).stack_spec().len() - 1,
            ) ==> r is Ok,
            r is Ok ==> element_read(
                old(self).stack_spec(),
                old(self).heap_spec().slots(),
                final(self).stack_spec(),
            ),
    {
        let index_v = self.peek(0)?;
        let list_v = self.peek(1)?;
        let raw = coerce_to_number(&self.heap, index_v)?;
        let h = coerce_to_list(&self.heap, list_v)?;
        let val = match get_heap_value(&self.heap, h)? {
            HeapValue::List(xs) => {
                let i = self.element_index(raw, xs.len())?;
                xs[i]
            },
            _ => return Err(Exception::OutOfBoundsIndex(raw, 0)),
        };
        let ghost st = self.stack@;
        self.pop_value()?;
        self.pop_value()?;
        self.push_value(val)?;
        assert(self.stack@ =~= st.take(st.len() - 2).push(val));
        Ok(Flow::Continue)
    }

    /// Replaces the top value by a new box holding what it unboxes to.
    fn box_top(&mut self) -> (r: Result<Flow, Exception>)
        requires
            old(self).wf(),
        ensures
            final(self).wf(),
            final(self).same_tables(old(self)),
            final(self).frames() == old(self).frames(),
            final(self).ip_spec() == old(self).ip_spec(),
            r matches Ok(f) ==> f is Continue,
            r is Ok ==> boxed(*old(self), *final(self)),
            ({
                let s = old(self).stack_spec();
                let u = unbox_spec(old(self).heap_spec().slots(), s.last());
                s.len() > 0 && u is Ok && !is_box_ref(old(self).heap_spec().slots(), u->Ok_0)
                    && alloc_room(*old(self))
            }) ==> r is Ok,
    {
        let v = self.peek(0)?;
        let inner = unbox(&self.heap, v)?;
        let nested = match inner {
            Value::Object(p) => match get_heap_value(&self.heap, p) {
                Ok(HeapValue::Box(_)) => true,
                _ => false,
            },
            _ => false,
        };
        if nested {
            return Err(Exception::Custom(String::from_str("a box holds a box")));
        }
        let ghost st = self.stack@;
        let h = self.heap_alloc(HeapValue::Box(inner))?;
        self.pop_value()?;
        self.push_value(Value::Object(h))?;
        assert(self.stack@.drop_last() =~= st.drop_last());
        Ok(Flow::Continue)
    }

    /// Allocates a string and pushes it in place of the `n` topmost values.
    fn replace_with_string(&mut self, n: usize, s: String) -> (r: Result<Flow, Exception>)
        requires
            old(self).wf(),
        ensures
            final(self).wf(),
            final(self).same_tables(old(self)),
            final(self).frames() == old(self).frames(),
            r matches Ok(f) ==> f is Continue,
            1 <= n <= old(self).stack_spec().len() && alloc_room(*old(self)) ==> r is Ok,
            r is Ok ==> final(self).ip_spec() == old(self).ip_spec() && string_pushed(
                old(self).stack_spec(),
                n as nat,
                s@,
                final(self).stack_spec(),
                final(self).heap_spec().slots(),
            ),
    {
        if n > self.stack.len() {
            return Err(Exception::StackUnderflow);
        }
        let h = self.heap_alloc(HeapValue::String(s))?;
        let ghost st = self.stack@;
        let mut k: usize = 0;
        while k < n
            invariant
                self.wf(),
                self.same_tables(old(self)),
                self.frames() == old(self).frames(),
                self.ip_spec() == old(self).ip_spec(),
                holds(self.heap_spec().slots(), h.0, HeapValue::String(s)),
                k <= n,
                n <= st.len(),
                st == old(self).stack_spec(),
                self.stack@ == st.take(st.len() - k),
            decreases n - k,
        {
            self.pop_value()?;
            assert(self.stack@ =~= st.take(st.len() - (k + 1)));
            k = k + 1;
        }
        self.push_value(Value::Object(h))?;
        assert(self.stack@.drop_last() =~= st.take(st.len() - n));
        Ok(Flow::Continue)
    }

    /// Interprets a control, stack or variable instruction.
    #[verifier::rlimit(100)]
    fn interpret_control(&mut self) -> (r: Result<Flow, Exception>)
        requires
            old(self).wf(),
            old(self).ip_spec() < old(self).code_spec().len(),
            is_control_opcode(old(self).code_spec()[old(self).ip_spec() as int]),
        ensures
            final(self).wf(),
            final(self).same_tables(old(self)),
            r matches Ok(Flow::Call { closure, arg_count }) ==> {
                let st = old(self).stack_spec();
                &&& old(self).ip_spec() < old(self).code_spec().len()
                &&& old(self).code_spec()[old(self).ip_spec() as int] == opcode::CALL
                &&& final(self).frames() == old(self).frames()
                &&& final(self).stack_spec() == st
                &&& final(self).heap_spec() == old(self).heap_spec()
                &&& arg_count == operand_u32(old(self).code_spec(), old(self).ip_spec())
                &&& arg_count < st.len()
                &&& st[st.len() - 1 - arg_count] == Value::Function(closure)
                &&& final(self).ip_spec() == old(self).ip_spec() + 5
            },
            r matches Ok(Flow::Return) ==> old(self).ip_spec() < old(self).code_spec().len()
                && old(self).code_spec()[old(self).ip_spec() as int] == opcode::RET
                && final(self).stack_spec() == old(self).stack_spec() && final(self).frames()
                == old(self).frames(),
            r matches Ok(Flow::NeedNumeral(_)) ==> final(self).stack_spec() == old(self).stack_spec()
                && final(self).heap_spec() == old(self).heap_spec() && final(self).frames() == old(self).frames() && final(self).ip_spec() == old(self).ip_spec(),
            old(self).ip_spec() >= old(self).code_spec().len() ==> r == Err::<Flow, _>(
                Exception::Overrun,
            ),
            old(self).ip_spec() < old(self).code_spec().len() && old(self).code_spec()[old(self).ip_spec() as int] == opcode::BOUNDARY ==> r == Err::<Flow, _>(Exception::Overrun),
            instruction_ok(*old(self)) ==> r is Ok,
            r matches Ok(Flow::Continue) ==> final(self).frames() == old(self).frames() || final(self).frames().drop_last() == old(self).frames() || final(self).frames() == old(self).frames().drop_last(),
            r matches Ok(Flow::NeedNumeral(b)) ==> numeral_missing(*old(self), b),
            instruction_ok(*old(self)) && !is_arith_opcode(old(self).code_spec()[old(self).ip_spec() as int])
                && old(self).code_spec()[old(self).ip_spec() as int] != opcode::CALL && old(self).code_spec()[old(self).ip_spec() as int] != opcode::RET
                && !(exists|b: u64| numeral_missing(*old(self), b)) ==> r matches Ok(Flow::Continue),
            old(self).ip_spec() < old(self).code_spec().len() && old(self).code_spec()[old(self).ip_spec() as int] == opcode::WRITE_FIELD && ({
                let (name, o) = field_operands(*old(self), 1, 2)->Some_0;
                field_operands(*old(self), 1, 2) is Some && crate::value_ops::find_field(
                    o.fields@,
                    name,
                ) is Some && !o.fields@[crate::value_ops::find_field(o.fields@, name)->Some_0].1.mutable
            }) ==> (r matches Err(Exception::WriteToImmutableField(t)) && t@ == field_operands(
                *old(self),
                1,
                2,
            )->Some_0.0 && final(self).heap_spec() == old(self).heap_spec()),
            old(self).ip_spec() < old(self).code_spec().len() && old(self).code_spec()[old(self).ip_spec() as int] == opcode::WRITE_FIELD && ({
                let (name, o) = field_operands(*old(self), 1, 2)->Some_0;
                field_operands(*old(self), 1, 2) is Some && crate::value_ops::find_field(
                    o.fields@,
                    name,
                ) is None && !o.dynamic
            }) ==> (r matches Err(Exception::MissingField(t)) && t@ == field_operands(
                *old(self),
                1,
                2,
            )->Some_0.0 && final(self).heap_spec() == old(self).heap_spec()),
            ({
                let s = old(self).stack_spec();
                let op = old(self).code_spec()[old(self).ip_spec() as int];
                old(self).ip_spec() < old(self).code_spec().len() && is_arith_opcode(op) && s.len()
                    >= 2 && number_coercion(s[s.len() - 2]) is Some && number_coercion(
                    s[s.len() - 1],
                ) is Some && !(op == opcode::DIV && is_zero(number_coercion(s[s.len() - 1])->Some_0))
            }) ==> r matches Ok(Flow::Arith { .. }),
            ({
                let s = old(self).stack_spec();
                old(self).ip_spec() < old(self).code_spec().len() && old(self).code_spec()[old(self).ip_spec() as int] == opcode::DIV && s.len() >= 2 && number_coercion(s[s.len() - 2]) is Some && number_coercion(s[s.len() - 1]) is Some && is_zero(number_coercion(s[s.len() - 1])->Some_0)
            }) ==> r is Err,
            r matches Ok(Flow::Continue) ==> executed(*old(self), *final(self)) && old(self).code_spec()[old(self).ip_spec() as int] != opcode::CALL && old(self).code_spec()[old(self).ip_spec() as int] != opcode::RET,
            r matches Ok(Flow::Arith { op, lhs, rhs }) ==> {
                let s = old(self).stack_spec();
                &&& old(self).ip_spec() < old(self).code_spec().len()
                &&& old(self).code_spec()[old(self).ip_spec() as int] == arith_opcode(op)
                &&& s.len() >= 2
                &&& number_coercion(s[s.len() - 2]) == Some(lhs)
                &&& number_coercion(s[s.len() - 1]) == Some(rhs)
                &&& final(self).stack_spec() == s.take(s.len() - 2)
                &&& final(self).frames() == old(self).frames()
            },
    {
        let start = self.code.ip();
        let op = self.code.read_byte()?;
        if op == opcode::NO_OP {
        } else if op == opcode::JUMP {
            let address = self.read_u32()?;
            self.code.jump(address as usize);
        } else if op == opcode::JUMP_IF {
            let address = self.read_u32()?;
            let cond = self.pop_value()?;
            if coerce_to_bool(cond) {
                self.code.jump(address as usize);
            }
        } else if op == opcode::CALL {
            let arg_count = self.read_u32()?;
            let n = arg_count as usize;
            if n >= self.stack.len() {
                return Err(Exception::StackUnderflow);
            }
            let callee = self.stack[self.stack.len() - n - 1];
            let closure = coerce_to_function(&self.heap, callee)?;
            return Ok(Flow::Call { closure, arg_count });
        } else if op == opcode::RET {
            return Ok(Flow::Return);
        } else if op == opcode::ENTER_TEMP_FRAME {
            let ghost frames = self.frames();
            self.enter_temp_frame()?;
            assert(self.frames().drop_last() =~= frames);
        } else if op == opcode::EXIT_TEMP_FRAME {
            self.exit_temp_frame()?;
        } else if op == opcode::PUSH_FLOAT {
            let bits = self.code.read_u64()?;
            self.push_value(Value::Number(bits))?;
        } else if op == opcode::PUSH_BOOL {
            let b = self.code.read_bool()?;
            self.push_value(Value::Bool(b))?;
        } else if op == opcode::PUSH_FUNC {
            let index = self.read_u32()?;
            self.push_function(index)?;
        } else if op == opcode::PUSH_NIL {
            self.push_value(Value::Nil)?;
        } else if op == opcode::PUSH_STRING {
            let index = self.read_u32()?;
            self.push_value(Value::InternedString(index as usize))?;
        } else if op == opcode::PUSH_OBJECT {
            let dynamic = self.code.read_bool()?;
            let ghost st = self.stack@;
            let h = self.heap_alloc(HeapValue::Object(Object { fields: Vec::new(), dynamic }))?;
            self.push_value(Value::Object(h))?;
            assert(self.stack@.drop_last() =~= st);
        } else if op == opcode::PUSH_LIST {
            let ghost st = self.stack@;
            let h = self.heap_alloc(HeapValue::List(Vec::new()))?;
            self.push_value(Value::Object(h))?;
            assert(self.stack@.drop_last() =~= st);
            assert(list_at(self.heap_spec().slots(), Value::Object(h)) =~= Some(Seq::<Value>::empty()));
        } else if op == opcode::POP {
            self.pop_value()?;
        } else if op == opcode::DUP {
            let v = self.peek(0)?;
            self.push_value(v)?;
        } else if op == opcode::SWAP {
            let ghost st = self.stack@;
            let b = self.pop_value()?;
            let a = self.pop_value()?;
            self.push_value(b)?;
            self.push_value(a)?;
            assert(self.stack@ =~= st.take(st.len() - 2).push(st[st.len() - 1]).push(
                st[st.len() - 2],
            ));
        } else if op == opcode::STORE_VAR {
            let index = self.read_u32()?;
            let v = self.pop_value()?;
            self.write_variable(index as usize, v)?;
        } else if op == opcode::LOAD_VAR {
            let index = self.read_u32()?;
            let v = self.read_variable(index as usize)?;
            self.push_value(v)?;
        } else {
            return Err(Exception::UnknownOpcode(op));
        }
        Ok(Flow::Continue)
    }

    /// Interprets a value, heap or host-number instruction.
    #[verifier::rlimit(100)]
    fn interpret_values(&mut self) -> (r: Result<Flow, Exception>)
        requires
            old(self).wf(),
            old(self).ip_spec() < old(self).code_spec().len(),
            !is_control_opcode(old(self).code_spec()[old(self).ip_spec() as int]),
        ensures
            final(self).wf(),
            final(self).same_tables(old(self)),
            r matches Ok(Flow::Call { closure, arg_count }) ==> {
                let st = old(self).stack_spec();
                &&& old(self).ip_spec() < old(self).code_spec().len()
                &&& old(self).code_spec()[old(self).ip_spec() as int] == opcode::CALL
                &&& final(self).frames() == old(self).frames()
                &&& final(self).stack_spec() == st
                &&& final(self).heap_spec() == old(self).heap_spec()
                &&& arg_count == operand_u32(old(self).code_spec(), old(self).ip_spec())
                &&& arg_count < st.len()
                &&& st[st.len() - 1 - arg_count] == Value::Function(closure)
                &&& final(self).ip_spec() == old(self).ip_spec() + 5
            },
            r matches Ok(Flow::Return) ==> old(self).ip_spec() < old(self).code_spec().len()
                && old(self).code_spec()[old(self).ip_spec() as int] == opcode::RET
                && final(self).stack_spec() == old(self).stack_spec() && final(self).frames()
                == old(self).frames(),
            r matches Ok(Flow::NeedNumeral(_)) ==> final(self).stack_spec() == old(self).stack_spec()
                && final(self).heap_spec() == old(self).heap_spec() && final(self).frames() == old(self).frames() && final(self).ip_spec() == old(self).ip_spec(),
            old(self).ip_spec() >= old(self).code_spec().len() ==> r == Err::<Flow, _>(
                Exception::Overrun,
            ),
            old(self).ip_spec() < old(self).code_spec().len() && old(self).code_spec()[old(self).ip_spec() as int] == opcode::BOUNDARY ==> r == Err::<Flow, _>(Exception::Overrun),
            instruction_ok(*old(self)) ==> r is Ok,
            r matches Ok(Flow::Continue) ==> final(self).frames() == old(self).frames() || final(self).frames().drop_last() == old(self).frames() || final(self).frames() == old(self).frames().drop_last(),
            r matches Ok(Flow::NeedNumeral(b)) ==> numeral_missing(*old(self), b),
            instruction_ok(*old(self)) && !is_arith_opcode(old(self).code_spec()[old(self).ip_spec() as int])
                && old(self).code_spec()[old(self).ip_spec() as int] != opcode::CALL && old(self).code_spec()[old(self).ip_spec() as int] != opcode::RET
                && !(exists|b: u64| numeral_missing(*old(self), b)) ==> r matches Ok(Flow::Continue),
            old(self).ip_spec() < old(self).code_spec().len() && old(self).code_spec()[old(self).ip_spec() as int] == opcode::WRITE_FIELD && ({
                let (name, o) = field_operands(*old(self), 1, 2)->Some_0;
                field_operands(*old(self), 1, 2) is Some && crate::value_ops::find_field(
                    o.fields@,
                    name,
                ) is Some && !o.fields@[crate::value_ops::find_field(o.fields@, name)->Some_0].1.mutable
            }) ==> (r matches Err(Exception::WriteToImmutableField(t)) && t@ == field_operands(
                *old(self),
                1,
                2,
            )->Some_0.0 && final(self).heap_spec() == old(self).heap_spec()),
            old(self).ip_spec() < old(self).code_spec().len() && old(self).code_spec()[old(self).ip_spec() as int] == opcode::WRITE_FIELD && ({
                let (name, o) = field_operands(*old(self), 1, 2)->Some_0;
                field_operands(*old(self), 1, 2) is Some && crate::value_ops::find_field(
                    o.fields@,
                    name,
                ) is None && !o.dynamic
            }) ==> (r matches Err(Exception::MissingField(t)) && t@ == field_operands(
                *old(self),
                1,
                2,
            )->Some_0.0 && final(self).heap_spec() == old(self).heap_spec()),
            ({
                let s = old(self).stack_spec();
                let op = old(self).code_spec()[old(self).ip_spec() as int];
                old(self).ip_spec() < old(self).code_spec().len() && is_arith_opcode(op) && s.len()
                    >= 2 && number_coercion(s[s.len() - 2]) is Some && number_coercion(
                    s[s.len() - 1],
                ) is Some && !(op == opcode::DIV && is_zero(number_coercion(s[s.len() - 1])->Some_0))
            }) ==> r matches Ok(Flow::Arith { .. }),
            ({
                let s = old(self).stack_spec();
                old(self).ip_spec() < old(self).code_spec().len() && old(self).code_spec()[old(self).ip_spec() as int] == opcode::DIV && s.len() >= 2 && number_coercion(s[s.len() - 2]) is Some && number_coercion(s[s.len() - 1]) is Some && is_zero(number_coercion(s[s.len() - 1])->Some_0)
            }) ==> r is Err,
            r matches Ok(Flow::Continue) ==> executed(*old(self), *final(self)) && old(self).code_spec()[old(self).ip_spec() as int] != opcode::CALL && old(self).code_spec()[old(self).ip_spec() as int] != opcode::RET,
            r matches Ok(Flow::Arith { op, lhs, rhs }) ==> {
                let s = old(self).stack_spec();
                &&& old(self).ip_spec() < old(self).code_spec().len()
                &&& old(self).code_spec()[old(self).ip_spec() as int] == arith_opcode(op)
                &&& s.len() >= 2
                &&& number_coercion(s[s.len() - 2]) == Some(lhs)
                &&& number_coercion(s[s.len() - 1]) == Some(rhs)
                &&& final(self).stack_spec() == s.take(s.len() - 2)
                &&& final(self).frames() == old(self).frames()
            },
    {
        let start = self.code.ip();
        let op = self.code.read_byte()?;
        if op == opcode::ADD || op == opcode::SUB || op == opcode::MULT || op == opcode::DIV
            || op == opcode::LESS_THAN || op == opcode::GREATER_THAN {
            let arith = if op == opcode::ADD {
                ArithOp::Add
            } else if op == opcode::SUB {
                ArithOp::Sub
            } else if op == opcode::MULT {
                ArithOp::Mult
            } else if op == opcode::DIV {
                ArithOp::Div
            } else if op == opcode::LESS_THAN {
                ArithOp::LessThan
            } else {
                ArithOp::GreaterThan
            };
            let (lhs, rhs) = self.pop_numbers()?;
            if op == opcode::DIV && rhs & 0x7fff_ffff_ffff_ffffu64 == 0 {
                return Err(Exception::Custom(String::from_str("division by zero")));
            }
            return Ok(Flow::Arith { op: arith, lhs, rhs });
        } else if op == opcode::EQUAL {
            let b = self.peek(0)?;
            let a = self.peek(1)?;
            let eq = equal(&self.strings, &self.heap, a, b)?;
            let ghost st = self.stack@;
            self.pop_value()?;
            self.pop_value()?;
            self.push_value(Value::Bool(eq))?;
            assert(self.stack@ =~= st.take(st.len() - 2).push(Value::Bool(eq)));
        } else if op == opcode::NOT {
            let v = self.pop_value()?;
            self.push_value(Value::Bool(!coerce_to_bool(v)))?;
        } else if op == opcode::AND {
            let (a, b) = self.pop_bools()?;
            self.push_value(Value::Bool(a && b))?;
        } else if op == opcode::OR {
            let (a, b) = self.pop_bools()?;
            self.push_value(Value::Bool(a || b))?;
        } else if op == opcode::CONCAT {
            let b = self.peek(0)?;
            let a = self.peek(1)?;
            let mut text = match self.render_or_rewind(a, start)? {
                Rendered::Text(s) => s,
                Rendered::Missing(bits) => {
                    assert(numeral_missing(*old(self), bits));
                    return Ok(Flow::NeedNumeral(bits));
                },
            };
            let tail = match self.render_or_rewind(b, start)? {
                Rendered::Text(s) => s,
                Rendered::Missing(bits) => {
                    assert(numeral_missing(*old(self), bits));
                    return Ok(Flow::NeedNumeral(bits));
                },
            };
            crate::render::append_string(&mut text, &tail);
            return self.replace_with_string(2, text);
        } else if op == opcode::TO_STRING {
            let v = self.peek(0)?;
            let text = match self.render_or_rewind(v, start)? {
                Rendered::Text(s) => s,
                Rendered::Missing(bits) => {
                    assert(numeral_missing(*old(self), bits));
                    return Ok(Flow::NeedNumeral(bits));
                },
            };
            return self.replace_with_string(1, text);
        } else if op == opcode::ADD_FIELD {
            let mutable = self.read_u8()? != 0;
            let r = self.add_field(mutable, start);
            proof {
                match r {
                    Ok(Flow::NeedNumeral(b)) => {
                        assert(numeral_missing(*old(self), b));
                    },
                    _ => {},
                }
            }
            return r;
        } else if op == opcode::WRITE_FIELD {
            let r = self.write_field(start);
            proof {
                match r {
                    Ok(Flow::NeedNumeral(b)) => {
                        assert(numeral_missing(*old(self), b));
                    },
                    _ => {},
                }
            }
            return r;
        } else if op == opcode::READ_FIELD {
            let r = self.read_field(start);
            proof {
                match r {
                    Ok(Flow::NeedNumeral(b)) => {
                        assert(numeral_missing(*old(self), b));
                    },
                    _ => {},
                }
            }
            return r;
        } else if op == opcode::APPEND_ELEMENT {
            return self.append_element();
        } else if op == opcode::WRITE_ELEMENT {
            return self.write_element();
        } else if op == opcode::READ_ELEMENT {
            return self.read_element();
        } else if op == opcode::BOX {
            return self.box_top();
        } else if op == opcode::UNBOX {
            let v = self.peek(0)?;
            let inner = unbox(&self.heap, v)?;
            self.pop_value()?;
            self.push_value(inner)?;
        } else if op == opcode::BOUNDARY {
            return Err(Exception::Overrun);
        } else {
            return Err(Exception::UnknownOpcode(op));
        }
        Ok(Flow::Continue)
    }

    /// Interprets the instruction at the instruction pointer.
    fn interpret_instruction(&mut self) -> (r: Result<Flow, Exception>)
        requires
            old(self).wf(),
        ensures
            final(self).wf(),
            final(self).same_tables(old(self)),
            r matches Ok(Flow::Call { closure, arg_count }) ==> {
                let st = old(self).stack_spec();
                &&& old(self).ip_spec() < old(self).code_spec().len()
                &&& old(self).code_spec()[old(self).ip_spec() as int] == opcode::CALL
                &&& final(self).frames() == old(self).frames()
                &&& final(self).stack_spec() == st
                &&& final(self).heap_spec() == old(self).heap_spec()
                &&& arg_count == operand_u32(old(self).code_spec(), old(self).ip_spec())
                &&& arg_count < st.len()
                &&& st[st.len() - 1 - arg_count] == Value::Function(closure)
                &&& final(self).ip_spec() == old(self).ip_spec() + 5
            },
            r matches Ok(Flow::Return) ==> old(self).ip_spec() < old(self).code_spec().len()
                && old(self).code_spec()[old(self).ip_spec() as int] == opcode::RET
                && final(self).stack_spec() == old(self).stack_spec() && final(self).frames()
                == old(self).frames(),
            r matches Ok(Flow::NeedNumeral(_)) ==> final(self).stack_spec() == old(self).stack_spec()
                && final(self).heap_spec() == old(self).heap_spec() && final(self).frames() == old(self).frames() && final(self).ip_spec() == old(self).ip_spec(),
            old(self).ip_spec() >= old(self).code_spec().len() ==> r == Err::<Flow, _>(
                Exception::Overrun,
            ),
            old(self).ip_spec() < old(self).code_spec().len() && old(self).code_spec()[old(self).ip_spec() as int] == opcode::BOUNDARY ==> r == Err::<Flow, _>(Exception::Overrun),
            instruction_ok(*old(self)) ==> r is Ok,
            r matches Ok(Flow::Continue) ==> final(self).frames() == old(self).frames() || final(self).frames().drop_last() == old(self).frames() || final(self).frames() == old(self).frames().drop_last(),
            r matches Ok(Flow::NeedNumeral(b)) ==> numeral_missing(*old(self), b),
            instruction_ok(*old(self)) && !is_arith_opcode(old(self).code_spec()[old(self).ip_spec() as int])
                && old(self).code_spec()[old(self).ip_spec() as int] != opcode::CALL && old(self).code_spec()[old(self).ip_spec() as int] != opcode::RET
                && !(exists|b: u64| numeral_missing(*old(self), b)) ==> r matches Ok(Flow::Continue),
            old(self).ip_spec() < old(self).code_spec().len() && old(self).code_spec()[old(self).ip_spec() as int] == opcode::WRITE_FIELD && ({
                let (name, o) = field_operands(*old(self), 1, 2)->Some_0;
                field_operands(*old(self), 1, 2) is Some && crate::value_ops::find_field(
                    o.fields@,
                    name,
                ) is Some && !o.fields@[crate::value_ops::find_field(o.fields@, name)->Some_0].1.mutable
            }) ==> (r matches Err(Exception::WriteToImmutableField(t)) && t@ == field_operands(
                *old(self),
                1,
                2,
            )->Some_0.0 && final(self).heap_spec() == old(self).heap_spec()),
            old(self).ip_spec() < old(self).code_spec().len() && old(self).code_spec()[old(self).ip_spec() as int] == opcode::WRITE_FIELD && ({
                let (name, o) = field_operands(*old(self), 1, 2)->Some_0;
                field_operands(*old(self), 1, 2) is Some && crate::value_ops::find_field(
                    o.fields@,
                    name,
                ) is None && !o.dynamic
            }) ==> (r matches Err(Exception::MissingField(t)) && t@ == field_operands(
                *old(self),
                1,
                2,
            )->Some_0.0 && final(self).heap_spec() == old(self).heap_spec()),
            ({
                let s = old(self).stack_spec();
                let op = old(self).code_spec()[old(self).ip_spec() as int];
                old(self).ip_spec() < old(self).code_spec().len() && is_arith_opcode(op) && s.len()
                    >= 2 && number_coercion(s[s.len() - 2]) is Some && number_coercion(
                    s[s.len() - 1],
                ) is Some && !(op == opcode::DIV && is_zero(number_coercion(s[s.len() - 1])->Some_0))
            }) ==> r matches Ok(Flow::Arith { .. }),
            ({
                let s = old(self).stack_spec();
                old(self).ip_spec() < old(self).code_spec().len() && old(self).code_spec()[old(self).ip_spec() as int] == opcode::DIV && s.len() >= 2 && number_coercion(s[s.len() - 2]) is Some && number_coercion(s[s.len() - 1]) is Some && is_zero(number_coercion(s[s.len() - 1])->Some_0)
            }) ==> r is Err,
            r matches Ok(Flow::Continue) ==> executed(*old(self), *final(self)) && old(self).code_spec()[old(self).ip_spec() as int] != opcode::CALL && old(self).code_spec()[old(self).ip_spec() as int] != opcode::RET,
            r matches Ok(Flow::Arith { op, lhs, rhs }) ==> {
                let s = old(self).stack_spec();
                &&& old(self).ip_spec() < old(self).code_spec().len()
                &&& old(self).code_spec()[old(self).ip_spec() as int] == arith_opcode(op)
                &&& s.len() >= 2
                &&& number_coercion(s[s.len() - 2]) == Some(lhs)
                &&& number_coercion(s[s.len() - 1]) == Some(rhs)
                &&& final(self).stack_spec() == s.take(s.len() - 2)
                &&& final(self).frames() == old(self).frames()
            },
    {
        if self.code.ip() >= self.code.code().len() {
            return Err(Exception::Overrun);
        }
        let op = self.code.code()[self.code.ip()];
        if op == opcode::NO_OP || op == opcode::JUMP || op == opcode::JUMP_IF || op == opcode::CALL
            || op == opcode::RET || op == opcode::ENTER_TEMP_FRAME || op == opcode::EXIT_TEMP_FRAME
            || op == opcode::PUSH_FLOAT || op == opcode::PUSH_BOOL || op == opcode::PUSH_FUNC || op
            == opcode::PUSH_NIL || op == opcode::PUSH_STRING || op == opcode::PUSH_OBJECT || op
            == opcode::PUSH_LIST || op == opcode::POP || op == opcode::DUP || op == opcode::SWAP
            || op == opcode::STORE_VAR || op == opcode::LOAD_VAR {
            self.interpret_control()
        } else {
            self.interpret_values()
        }
    }
}

/// The name a stack trace shows for a frame's function.
pub open spec fn frame_name_spec(functions: Seq<Function>, strings: Seq<String>, f: Frame) -> Seq<
    char,
> {
    if f.function.0 >= 0x8000_0000 {
        "<native function>"@
    } else {
        let index = f.function.0 % 0x8000_0000;
        if index >= functions.len() {
            "<invalid function index>"@
        } else if functions[index as int].name_index >= strings.len() {
            "<invalid string index>"@
        } else {
            strings[functions[index as int].name_index as int]@
        }
    }
}

/// The frames a stack trace lists, from index `k` down, each with its code
/// address: the first listed is at `trace_ip` if it is a user function, and
/// each later one is at the return address of the frame listed before it.
pub open spec fn trace_frames(
    frames: Seq<Frame>,
    k: int,
    first: bool,
    next: Option<usize>,
    trace_ip: usize,
) -> Seq<(Frame, Option<usize>)>
    decreases k + 1,
{
    if k < 0 || k >= frames.len() {
        seq![]
    } else if frames[k].kind is Temp {
        trace_frames(frames, k - 1, first, next, trace_ip)
    } else {
        let address = if first {
            if frames[k].kind is UserFunction {
                Some(trace_ip)
            } else {
                None
            }
        } else {
            next
        };
        seq![(frames[k], address)] + trace_frames(frames, k - 1, false, frames[k].ret, trace_ip)
    }
}

/// Whether `trace` lists `tf` by name and address, then the execution root.
pub open spec fn trace_matches(
    trace: Seq<TraceFrame>,
    tf: Seq<(Frame, Option<usize>)>,
    functions: Seq<Function>,
    strings: Seq<String>,
) -> bool {
    &&& trace.len() == tf.len() + 1
    &&& forall|i: int|
        0 <= i < tf.len() ==> trace[i].function@ == frame_name_spec(functions, strings, tf[i].0)
            && trace[i].address == tf[i].1
    &&& trace.last().function@ == "<execution root>"@
    &&& trace.last().address is None
}

/// The outcome of one step of the machine.
#[derive(Debug, Clone, PartialEq, Eq)]
pub enum Outcome {
    /// The instruction ran; step again.
    Continue,
    /// The function that the current run called has returned this value.
    Returned(Value),
    /// The host applies `op` to the two doubles and pushes the result.
    Arith { op: ArithOp, lhs: u64, rhs: u64 },
    /// The host runs native function `function` on `args` and hands the
    /// result to [`Vm::finish_native`].
    Native { function: FuncId, args: Vec<Value> },
    /// The host gives the text of this number to [`Vm::add_numeral`] and
    /// steps again.
    NeedNumeral(u64),
}

impl Vm {
    /// The name a stack trace shows for a frame's function.
    fn frame_name(&self, f: Frame) -> (r: String)
        ensures
            r@ == frame_name_spec(self.functions_spec(), self.strings_spec(), f),
    {
        if f.function.is_native() {
            text("<native function>")
        } else {
            let index = f.function.decode();
            if index as usize >= self.functions.len() {
                text("<invalid function index>")
            } else if self.functions[index as usize].name_index as usize >= self.strings.len() {
                text("<invalid string index>")
            } else {
                self.strings[self.functions[index as usize].name_index as usize].clone()
            }
        }
    }

    /// The stack trace at this point: the frames that are not temporary, top
    /// first, then the execution root.
    pub fn construct_stack_trace(&self) -> (r: Vec<TraceFrame>)
        ensures
            trace_matches(
                r@,
                trace_frames(self.frames(), self.frames().len() - 1, true, None, self.trace_ip_spec()),
                self.functions_spec(),
                self.strings_spec(),
            ),
    {
        let ghost all = trace_frames(self.frames(), self.frames().len() - 1, true, None, self.trace_ip);
        let mut trace: Vec<TraceFrame> = Vec::new();
        let mut k: usize = self.call_stack.len();
        let mut first = true;
        let mut next: Option<usize> = None;
        while k > 0
            invariant
                k <= self.frames().len(),
                trace@.len() + trace_frames(self.frames(), k - 1, first, next, self.trace_ip).len()
                    == all.len(),
                forall|i: int|
                    0 <= i < all.len() ==> (if i < trace@.len() {
                        trace@[i].function@ == frame_name_spec(
                            self.functions_spec(),
                            self.strings_spec(),
                            all[i].0,
                        ) && trace@[i].address == all[i].1
                    } else {
                        all[i] == trace_frames(
                            self.frames(),
                            k - 1,
                            first,
                            next,
                            self.trace_ip,
                        )[i - trace@.len()]
                    }),
            decreases k,
        {
            let f = self.call_stack[k - 1];
            let ghost rest = trace_frames(self.frames(), k - 1, first, next, self.trace_ip);
            match f.kind {
                FrameKind::Temp { .. } => {},
                _ => {
                    let address = if first {
                        match f.kind {
                            FrameKind::UserFunction => Some(self.trace_ip),
                            _ => None,
                        }
                    } else {
                        next
                    };
                    let ghost before = trace@;
                    trace.push(TraceFrame { function: self.frame_name(f), address });
                    proof {
                        assert(rest =~= seq![(f, address)] + trace_frames(
                            self.frames(),
                            k - 2,
                            false,
                            f.ret,
                            self.trace_ip,
                        ));
                        assert forall|i: int| 0 <= i < all.len() implies (if i < trace@.len() {
                            trace@[i].function@ == frame_name_spec(
                                self.functions_spec(),
                                self.strings_spec(),
                                all[i].0,
                            ) && trace@[i].address == all[i].1
                        } else {
                            all[i] == trace_frames(
                                self.frames(),
                                k - 2,
                                false,
                                f.ret,
                                self.trace_ip,
                            )[i - trace@.len()]
                        }) by {
                            if i < before.len() {
                                assert(trace@[i] == before[i]);
                            } else if i == before.len() {
                                assert(all[i] == rest[0]);
                            } else {
                                assert(all[i] == rest[i - before.len()]);
                            }
                        }
                    }
                    first = false;
                    next = f.ret;
                },
            }
            k = k - 1;
        }
        assert(trace@.len() == all.len());
        trace.push(TraceFrame { function: text("<execution root>"), address: None });
        trace
    }

    /// An exception with the stack trace at this point.
    pub fn exception(&self, exception: Exception) -> (r: FormattedException)
        ensures
            r.exception == exception,
            trace_matches(
                r.stack_trace@,
                trace_frames(self.frames(), self.frames().len() - 1, true, None, self.trace_ip_spec()),
                self.functions_spec(),
                self.strings_spec(),
            ),
    {
        FormattedException { exception, stack_trace: self.construct_stack_trace() }
    }
}

impl Vm {
    /// Calls a closure with the `arg_count` values on top of the stack: a user
    /// function is entered; for a native function a native frame is pushed and
    /// its arguments are handed out for the host to run it.
    fn call(&mut self, closure: Closure, arg_count: u32) -> (r: Result<Option<Vec<Value>>, Exception>)
        requires
            old(self).wf(),
        ensures
            final(self).wf(),
            final(self).same_tables(old(self)),
            call_ok(*old(self), closure, arg_count as nat) ==> r is Ok,
            closure.function.0 < 0x8000_0000 && r is Ok ==> user_call_ok(*old(self), closure, arg_count as nat),
            closure.function.0 >= 0x8000_0000 && closure.captures is Some ==> r == Err::<Option<Vec<Value>>, _>(
                Exception::InvalidNativeFunction(closure.function.0 % 0x8000_0000),
            ),
            closure.function.0 < 0x8000_0000 ==> (r matches Ok(x) ==> x is None),
            closure.function.0 >= 0x8000_0000 ==> (r matches Ok(x) ==> {
                let s = old(self).stack_spec();
                &&& x matches Some(args) && args@ == s.skip(s.len() - arg_count)
                &&& arg_count <= s.len()
                &&& final(self).stack_spec() == s
                &&& final(self).frames() == old(self).frames().push(
                    Frame {
                        function: closure.function,
                        stack_start: (s.len() - arg_count) as usize,
                        ret: return_address(old(self).frames(), old(self).ip_spec()),
                        kind: FrameKind::NativeFunction,
                    },
                )
            }),
            closure.function.0 < 0x8000_0000 ==> r is Ok ==> {
                let index = closure.function.0 % 0x8000_0000;
                let f = old(self).functions_spec()[index as int];
                let fitted = fit_args(old(self).stack_spec(), arg_count as nat, f.arity as nat);
                let caps = closure_captures(old(self).heap_spec().slots(), closure)->Some_0;
                &&& final(self).stack_spec() == fitted + caps + nils(f.locals_count as nat)
                &&& final(self).frames() == old(self).frames().push(
                    Frame {
                        function: closure.function,
                        stack_start: (fitted.len() - f.arity) as usize,
                        ret: return_address(old(self).frames(), old(self).ip_spec()),
                        kind: FrameKind::UserFunction,
                    },
                )
                &&& final(self).ip_spec() == f.address
            },
    {
        if !closure.function.is_native() {
            self.call_user(closure, arg_count)?;
            return Ok(None);
        }
        if closure.captures.is_some() {
            return Err(Exception::InvalidNativeFunction(closure.function.decode()));
        }
        let n = arg_count as usize;
        if n > self.stack.len() {
            return Err(Exception::StackUnderflow);
        }
        let start = self.stack.len() - n;
        let mut args: Vec<Value> = Vec::new();
        let mut k: usize = start;
        while k < self.stack.len()
            invariant
                start <= k <= self.stack@.len(),
                args@ == self.stack@.subrange(start as int, k as int),
            decreases self.stack@.len() - k,
        {
            assert(self.stack@.subrange(start as int, k + 1) =~= args@.push(self.stack@[k as int]));
            args.push(self.stack[k]);
            k = k + 1;
        }
        assert(args@ =~= self.stack@.skip(start as int));
        let ret = self.get_return_address();
        self.push_frame(
            Frame { function: closure.function, stack_start: start, ret, kind: FrameKind::NativeFunction },
        )?;
        Ok(Some(args))
    }

    /// Pushes the arguments and calls a closure from outside the machine.
    /// The host then steps with the call-stack length from before this call as
    /// the base.
    pub fn begin_call(&mut self, closure: Closure, args: &Vec<Value>) -> (r: Result<
        Outcome,
        FormattedException,
    >)
        requires
            old(self).wf(),
            args@.len() <= u32::MAX,
        ensures
            final(self).wf(),
            final(self).same_tables(old(self)),
            r matches Ok(o) ==> o is Continue || o is Native,
            r matches Ok(Outcome::Continue) ==> final(self).frames().len() == old(self).frames().len() + 1 && final(self).frames().last().stack_start == old(self).stack_spec().len() && final(self).frames().last().kind is UserFunction,
            begin_call_ok(*old(self), closure, args@.len()) ==> r is Ok,
            r matches Ok(Outcome::Continue) ==> {
                let index = closure.function.0 % 0x8000_0000;
                let f = old(self).functions_spec()[index as int];
                let pushed = old(self).stack_spec() + args@;
                let caps = closure_captures(old(self).heap_spec().slots(), closure)->Some_0;
                &&& closure.function.0 < 0x8000_0000
                &&& final(self).stack_spec() == fit_args(pushed, args@.len(), f.arity as nat) + caps
                    + nils(f.locals_count as nat)
                &&& final(self).frames() == old(self).frames().push(
                    Frame {
                        function: closure.function,
                        stack_start: old(self).stack_spec().len() as usize,
                        ret: return_address(old(self).frames(), old(self).ip_spec()),
                        kind: FrameKind::UserFunction,
                    },
                )
                &&& final(self).ip_spec() == f.address
            },
            r matches Ok(Outcome::Native { function, args: handed }) ==> {
                &&& function == closure.function
                &&& closure.function.0 >= 0x8000_0000
                &&& handed@ == args@
                &&& final(self).stack_spec() == old(self).stack_spec() + args@
                &&& final(self).frames() == old(self).frames().push(
                    Frame {
                        function: closure.function,
                        stack_start: old(self).stack_spec().len() as usize,
                        ret: return_address(old(self).frames(), old(self).ip_spec()),
                        kind: FrameKind::NativeFunction,
                    },
                )
            },
    {
        let mut k: usize = 0;
        while k < args.len()
            invariant
                self.wf(),
                self.same_tables(old(self)),
                self.frames() == old(self).frames(),
                self.heap_spec() == old(self).heap_spec(),
                self.ip_spec() == old(self).ip_spec(),
                k <= args@.len(),
                self.stack_spec() == old(self).stack_spec() + args@.take(k as int),
            decreases args@.len() - k,
        {
            match self.push_value(args[k]) {
                Ok(()) => {},
                Err(e) => return Err(self.exception(e)),
            }
            assert(self.stack_spec() =~= old(self).stack_spec() + args@.take(k + 1));
            k = k + 1;
        }
        assert(args@.take(k as int) =~= args@);
        let ghost pushed = self.stack_spec();
        proof {
            assert(pushed.skip(pushed.len() - args@.len()) =~= args@);
        }
        match self.call(closure, args.len() as u32) {
            Ok(None) => {
                proof {
                    let index = closure.function.0 % 0x8000_0000;
                    let f = self.functions_spec()[index as int];
                    let n = args@.len();
                    let fitted = fit_args(pushed, n as nat, f.arity as nat);
                    assert(closure.function.0 < 0x8000_0000);
                    assert(pushed.len() == old(self).stack_spec().len() + n);
                    if n > f.arity {
                        assert(fitted.len() == pushed.len() - (n - f.arity));
                    } else {
                        assert(fitted.len() == pushed.len() + (f.arity - n));
                    }
                    assert(fitted.len() - f.arity == old(self).stack_spec().len());
                    assert(pushed == old(self).stack_spec() + args@);
                }
                Ok(Outcome::Continue)
            },
            Ok(Some(a)) => Ok(Outcome::Native { function: closure.function, args: a }),
            Err(e) => Err(self.exception(e)),
        }
    }

    /// Runs one instruction of the run whose call stack started at `base`
    /// frames. `Returned` comes exactly when the call stack is back to `base`
    /// frames.
    pub fn step(&mut self, base: usize) -> (r: Result<Outcome, FormattedException>)
        requires
            old(self).wf(),
        ensures
            final(self).wf(),
            final(self).same_tables(old(self)),
            r is Ok && old(self).frames().len() > 0 && final(self).frames().len() > 0 ==> final(self).frames()[0] == old(self).frames()[0],
            step_ok(*old(self), base as nat) ==> r is Ok,
            r matches Ok(o) ==> (o is Returned <==> final(self).frames().len() <= base),
            r matches Ok(Outcome::Returned(v)) ==> {
                let frames = old(self).frames();
                let k = non_temp_index(frames, frames.len() - 1);
                &&& old(self).code_spec()[old(self).ip_spec() as int] == opcode::RET
                &&& 0 <= k && frames[k].kind is UserFunction
                &&& v == old(self).stack_spec().last()
                &&& final(self).frames() == frames.take(k)
                &&& final(self).stack_spec() == stack_after_return(old(self).stack_spec(), frames, k)
            },
            r matches Ok(Outcome::Continue) && old(self).ip_spec() < old(self).code_spec().len()
                && old(self).code_spec()[old(self).ip_spec() as int] != opcode::CALL && old(self).code_spec()[old(self).ip_spec() as int] != opcode::RET ==> executed(
                *old(self),
                *final(self),
            ),
            r matches Ok(Outcome::NeedNumeral(_)) ==> final(self).stack_spec() == old(self).stack_spec()
                && final(self).heap_spec() == old(self).heap_spec() && final(self).frames() == old(self).frames() && final(self).ip_spec() == old(self).ip_spec(),
            r matches Ok(Outcome::NeedNumeral(b)) ==> numeral_missing(*old(self), b),
            r matches Ok(Outcome::Native { function, args }) ==> {
                let st = old(self).stack_spec();
                let n = operand_u32(old(self).code_spec(), old(self).ip_spec());
                &&& old(self).code_spec()[old(self).ip_spec() as int] == opcode::CALL
                &&& n <= st.len()
                &&& function.0 >= 0x8000_0000
                &&& args@ == st.skip(st.len() - n)
                &&& final(self).stack_spec() == st
                &&& final(self).frames() == old(self).frames().push(
                    Frame {
                        function,
                        stack_start: (st.len() - n) as usize,
                        ret: return_address(old(self).frames(), (old(self).ip_spec() + 5) as usize),
                        kind: FrameKind::NativeFunction,
                    },
                )
            },
            step_ok(*old(self), base as nat) && !(exists|b: u64| numeral_missing(*old(self), b))
                && !is_arith_opcode(old(self).code_spec()[old(self).ip_spec() as int]) ==> ({
                let op = old(self).code_spec()[old(self).ip_spec() as int];
                &&& op == opcode::CALL ==> (r matches Ok(o) && (o is Continue || o is Native))
                &&& op == opcode::RET ==> (r matches Ok(o) && (o is Continue || o is Returned))
                &&& op != opcode::CALL && op != opcode::RET ==> r matches Ok(Outcome::Continue)
            }),
            old(self).frames().len() > base && (old(self).ip_spec() >= old(self).code_spec().len()
                || old(self).code_spec()[old(self).ip_spec() as int] == opcode::BOUNDARY) ==> (r matches Err(
                e,
            ) && e.exception == Exception::Overrun),
            r matches Ok(Outcome::Continue) && old(self).ip_spec() < old(self).code_spec().len()
                && old(self).code_spec()[old(self).ip_spec() as int] == opcode::CALL ==> {
                &&& final(self).frames().len() == old(self).frames().len() + 1
                &&& final(self).frames().drop_last() == old(self).frames()
                &&& final(self).frames().last().kind is UserFunction
            },
            r matches Ok(Outcome::Arith { op, lhs, rhs }) ==> {
                let s = old(self).stack_spec();
                &&& old(self).code_spec()[old(self).ip_spec() as int] == arith_opcode(op)
                &&& s.len() >= 2
                &&& number_coercion(s[s.len() - 2]) == Some(lhs)
                &&& number_coercion(s[s.len() - 1]) == Some(rhs)
                &&& final(self).stack_spec() == s.take(s.len() - 2)
            },
    {
        let ghost a0 = self.frames();
        proof {
            if a0.len() > 0 {
                lemma_non_temp_index_range(a0, a0.len() - 1);
            }
        }
        if self.call_stack.len() <= base {
            return Err(self.exception(Exception::NoReturn));
        }
        self.trace_ip = self.code.ip();
        proof {
            assert forall|b: u64| numeral_missing(*self, b) == numeral_missing(*old(self), b) by {}
        }
        let flow = match self.interpret_instruction() {
            Ok(f) => f,
            Err(e) => return Err(self.exception(e)),
        };
        let outcome = match flow {
            Flow::Continue => Outcome::Continue,
            Flow::Call { closure, arg_count } => match self.call(closure, arg_count) {
                Ok(None) => {
                    assert(self.frames().drop_last() =~= old(self).frames());
                    Outcome::Continue
                },
                Ok(Some(args)) => {
                    assert(closure.function.0 >= 0x8000_0000);
                    assert(self.frames().last().function == closure.function);
                    Outcome::Native { function: closure.function, args }
                },
                Err(e) => return Err(self.exception(e)),
            },
            Flow::Return => {
                let v = match self.ret_user() {
                    Ok(v) => v,
                    Err(e) => return Err(self.exception(e)),
                };
                proof {
                    let b = self.frames();
                    if b.len() > 0 {
                        assert(a0.take(b.len() as int)[0] == a0[0]);
                    }
                }
                if self.call_stack.len() <= base {
                    return Ok(Outcome::Returned(v));
                }
                match self.push_value(v) {
                    Ok(()) => {},
                    Err(e) => return Err(self.exception(e)),
                }
                Outcome::Continue
            },
            Flow::Arith { op, lhs, rhs } => Outcome::Arith { op, lhs, rhs },
            Flow::NeedNumeral(b) => Outcome::NeedNumeral(b),
        };
        if self.call_stack.len() <= base {
            return Err(self.exception(Exception::NoReturn));
        }
        proof {
            let b = self.frames();
            if b.len() > 0 && a0.len() > 0 {
                if b.len() == a0.len() + 1 {
                    assert(b.drop_last()[0] == b[0]);
                } else if b.len() < a0.len() {
                    assert(a0.take(b.len() as int)[0] == a0[0]);
                    assert(a0.drop_last()[0] == a0[0]);
                }
            }
        }
        Ok(outcome)
    }

    /// Ends the native call on top of the call stack with its result: pops
    /// the native frame and its arguments (and the closure below them where a
    /// user function made the call), resumes at the frame's return address,
    /// then pushes the result, or hands it out where the call stack is back
    /// to `base` frames.
    pub fn finish_native(&mut self, result: Value, base: usize) -> (r: Result<
        Outcome,
        FormattedException,
    >)
        requires
            old(self).wf(),
        ensures
            final(self).wf(),
            final(self).same_tables(old(self)),
            r matches Ok(o) ==> (o is Returned <==> final(self).frames().len() <= base),
            r matches Ok(o) ==> o is Returned || o is Continue,
            r matches Ok(Outcome::Returned(v)) ==> v == result,
            r is Ok ==> old(self).frames().len() > 0 && old(self).frames().last().kind is NativeFunction
                && final(self).frames() == old(self).frames().drop_last(),
            ({
                let frames = old(self).frames();
                let cut = native_cut(*old(self));
                frames.len() > 0 && frames.last().kind is NativeFunction && (frames.len() - 1 > base
                    ==> cut.len() < old(self).stack_capacity_spec())
            }) ==> r is Ok,
            r matches Ok(Outcome::Returned(_)) ==> final(self).stack_spec() == native_cut(*old(self)),
            r matches Ok(Outcome::Continue) ==> final(self).stack_spec() == native_cut(*old(self)).push(
                result,
            ),
            r is Ok ==> final(self).ip_spec() == match old(self).frames().last().ret {
                Some(a) => a,
                None => old(self).ip_spec(),
            },
    {
        let n = self.call_stack.len();
        if n == 0 {
            return Err(self.exception(Exception::NoReturn));
        }
        let frame = self.call_stack[n - 1];
        match frame.kind {
            FrameKind::NativeFunction => {},
            _ => return Err(self.exception(Exception::NoReturn)),
        }
        self.call_stack.pop();
        let b = self.get_stack_backtrack_index(frame.stack_start);
        self.shrink(b);
        match frame.ret {
            Some(a) => self.code.jump(a),
            None => {},
        }
        if self.call_stack.len() <= base {
            return Ok(Outcome::Returned(result));
        }
        match self.push_value(result) {
            Ok(()) => Ok(Outcome::Continue),
            Err(e) => Err(self.exception(e)),
        }
    }

    /// Pushes a value computed by the host, such as the result of an
    /// [`Outcome::Arith`].
    pub fn push(&mut self, v: Value) -> (r: Result<(), FormattedException>)
        requires
            old(self).wf(),
        ensures
            final(self).wf(),
            final(self).same_tables(old(self)),
            final(self).frames() == old(self).frames(),
            old(self).stack_spec().len() < old(self).stack_capacity_spec() <==> r is Ok,
            r is Ok ==> final(self).stack_spec() == old(self).stack_spec().push(v),
    {
        match self.push_value(v) {
            Ok(()) => Ok(()),
            Err(e) => Err(self.exception(e)),
        }
    }

    /// Records the text of a number, as the host formats doubles.
    pub fn add_numeral(&mut self, bits: u64, text: String)
        requires
            old(self).wf(),
        ensures
            final(self).wf(),
            final(self).numerals_spec() == old(self).numerals_spec().push((bits, text)),
            final(self).stack_spec() == old(self).stack_spec(),
            final(self).frames() == old(self).frames(),
            final(self).heap_spec() == old(self).heap_spec(),
    {
        self.numerals.push((bits, text));
    }

    /// Allocates a string on the heap.
    pub fn alloc_string(&mut self, s: String) -> (r: Result<Value, FormattedException>)
        requires
            old(self).wf(),
        ensures
            final(self).wf(),
            final(self).same_tables(old(self)),
            final(self).stack_spec() == old(self).stack_spec(),
            r matches Ok(Value::Object(h)) ==> holds(final(self).heap_spec().slots(), h.0, HeapValue::String(s)),
            r matches Ok(v) ==> v is Object,
            !old(self).gc_due() ==> forall|a: int|
                0 <= a < old(self).heap_spec().slots().len() && a != old(self).heap_spec().first_free_spec()->Some_0
                    ==> final(self).heap_spec().slots()[a] == old(self).heap_spec().slots()[a],
            forall|a: usize|
                slot_filled(old(self).heap_spec().slots(), a as int) && crate::heap::reachable(
                    old(self).heap_spec().slots(),
                    old(self).stack_spec(),
                    a,
                ) ==> final(self).heap_spec().slots()[a as int] == old(self).heap_spec().slots()[a as int],
            alloc_room(*old(self)) ==> r is Ok,
    {
        match self.heap_alloc(HeapValue::String(s)) {
            Ok(h) => Ok(Value::Object(h)),
            Err(e) => Err(self.exception(e)),
        }
    }

    /// Allocates a list on the heap.
    pub fn alloc_list(&mut self, values: Vec<Value>) -> (r: Result<Value, FormattedException>)
        requires
            old(self).wf(),
        ensures
            final(self).wf(),
            final(self).same_tables(old(self)),
            final(self).stack_spec() == old(self).stack_spec(),
            r matches Ok(Value::Object(h)) ==> holds(final(self).heap_spec().slots(), h.0, HeapValue::List(values)),
            r matches Ok(v) ==> v is Object,
            !old(self).gc_due() ==> forall|a: int|
                0 <= a < old(self).heap_spec().slots().len() && a != old(self).heap_spec().first_free_spec()->Some_0
                    ==> final(self).heap_spec().slots()[a] == old(self).heap_spec().slots()[a],
            forall|a: usize|
                slot_filled(old(self).heap_spec().slots(), a as int) && crate::heap::reachable(
                    old(self).heap_spec().slots(),
                    old(self).stack_spec(),
                    a,
                ) ==> final(self).heap_spec().slots()[a as int] == old(self).heap_spec().slots()[a as int],
            alloc_room(*old(self)) ==> r is Ok,
    {
        match self.heap_alloc(HeapValue::List(values)) {
            Ok(h) => Ok(Value::Object(h)),
            Err(e) => Err(self.exception(e)),
        }
    }

    /// Allocates an object on the heap, numbering its fields by position so
    /// that their order is their insertion order.
    pub fn alloc_object(&mut self, fields: Vec<(String, Field)>, dynamic: bool) -> (r: Result<
        Value,
        FormattedException,
    >)
        requires
            old(self).wf(),
        ensures
            final(self).wf(),
            final(self).same_tables(old(self)),
            final(self).stack_spec() == old(self).stack_spec(),
            r matches Ok(Value::Object(h)) ==> (object_at(
                final(self).heap_spec().slots(),
                Value::Object(h),
            ) matches Some(o) && o.dynamic == dynamic && o.fields@.len() == fields@.len() && forall|i: int|
                0 <= i < fields@.len() ==> o.fields@[i].0 == fields@[i].0 && o.fields@[i].1.val
                    == fields@[i].1.val && o.fields@[i].1.mutable == fields@[i].1.mutable
                    && o.fields@[i].1.index == i),
            r matches Ok(v) ==> v is Object,
            !old(self).gc_due() ==> forall|a: int|
                0 <= a < old(self).heap_spec().slots().len() && a != old(self).heap_spec().first_free_spec()->Some_0
                    ==> final(self).heap_spec().slots()[a] == old(self).heap_spec().slots()[a],
            forall|a: usize|
                slot_filled(old(self).heap_spec().slots(), a as int) && crate::heap::reachable(
                    old(self).heap_spec().slots(),
                    old(self).stack_spec(),
                    a,
                ) ==> final(self).heap_spec().slots()[a as int] == old(self).heap_spec().slots()[a as int],
            alloc_room(*old(self)) && fields@.len() <= u32::MAX ==> r is Ok,
    {
        if fields.len() > u32::MAX as usize {
            return Err(self.exception(Exception::OutOfMemory));
        }
        let mut fields = fields;
        let ghost given = fields@;
        let mut i: usize = 0;
        while i < fields.len()
            invariant
                i <= fields@.len(),
                fields@.len() == given.len(),
                given.len() <= u32::MAX,
                forall|k: int|
                    0 <= k < fields@.len() ==> fields@[k].0 == given[k].0 && fields@[k].1.val
                        == given[k].1.val && fields@[k].1.mutable == given[k].1.mutable,
                forall|k: int| 0 <= k < i ==> fields@[k].1.index == k,
            decreases fields@.len() - i,
        {
            fields[i].1.index = i as u32;
            i = i + 1;
        }
        match self.heap_alloc(HeapValue::Object(Object { fields, dynamic })) {
            Ok(h) => Ok(Value::Object(h)),
            Err(e) => Err(self.exception(e)),
        }
    }

    /// The text of a value; `NeedNumeral` where the text of a number in it
    /// is not known yet.
    pub fn to_string(&self, v: Value) -> (r: Result<String, RenderStop>)
        ensures
            match crate::render::render_spec(
                self.strings_spec(),
                self.functions_spec(),
                self.heap_spec().slots(),
                self.numerals_spec(),
                v,
                crate::value_ops::MAX_DEPTH as nat,
            ) {
                Ok(t) => r matches Ok(s) && s@ == t,
                Err(e) => r matches Err(x) && x == e,
            },
    {
        render(&self.strings, &self.functions, &self.heap, &self.numerals, v)
    }
}

impl Vm {
    /// The elements of the list that a value refers to.
    pub fn list_elements(&self, v: Value) -> (r: Result<Vec<Value>, FormattedException>)
        ensures
            r matches Ok(ys) ==> (v matches Value::Object(h) && (crate::value_ops::heap_value(
                self.heap_spec().slots(),
                h.0,
            ) matches Ok(HeapValue::List(xs)) && xs@ == ys@)),
            list_at(self.heap_spec().slots(), v) is Some ==> r is Ok,
    {
        let h = match coerce_to_list(&self.heap, v) {
            Ok(h) => h,
            Err(e) => return Err(self.exception(e)),
        };
        match get_heap_value(&self.heap, h) {
            Ok(HeapValue::List(xs)) => Ok(copy_values(xs)),
            Ok(_) => Err(self.exception(Exception::OutOfBoundsHeapAddress)),
            Err(e) => Err(self.exception(e)),
        }
    }

    /// Appends a value to the list that `list` refers to.
    pub fn list_push(&mut self, list: Value, x: Value) -> (r: Result<(), FormattedException>)
        requires
            old(self).wf(),
        ensures
            final(self).wf(),
            final(self).same_tables(old(self)),
            final(self).stack_spec() == old(self).stack_spec(),
            final(self).frames() == old(self).frames(),
            r is Ok ==> (list matches Value::Object(h) && (crate::value_ops::heap_value(
                old(self).heap_spec().slots(),
                h.0,
            ) matches Ok(HeapValue::List(xs)) && (crate::value_ops::heap_value(
                final(self).heap_spec().slots(),
                h.0,
            ) matches Ok(HeapValue::List(ys)) && ys@ == xs@.push(x)))),
            (list matches Value::Object(h) && crate::value_ops::heap_value(
                old(self).heap_spec().slots(),
                h.0,
            ) matches Ok(HeapValue::List(_))) ==> r is Ok,
            r is Ok ==> changed_only_at(
                old(self).heap_spec().slots(),
                final(self).heap_spec().slots(),
                list,
            ),
    {
        let h = match coerce_to_list(&self.heap, list) {
            Ok(h) => h,
            Err(e) => return Err(self.exception(e)),
        };
        let mut xs = match self.take_list(h) {
            Ok(xs) => xs,
            Err(e) => return Err(self.exception(e)),
        };
        xs.push(x);
        match self.put_back(h, HeapValue::List(xs)) {
            Ok(()) => Ok(()),
            Err(e) => Err(self.exception(e)),
        }
    }

    /// Removes and gives back the last element of the list that `list`
    /// refers to; nil where it is empty.
    pub fn list_pop(&mut self, list: Value) -> (r: Result<Value, FormattedException>)
        requires
            old(self).wf(),
        ensures
            final(self).wf(),
            final(self).same_tables(old(self)),
            final(self).stack_spec() == old(self).stack_spec(),
            final(self).frames() == old(self).frames(),
            r matches Ok(v) ==> (list matches Value::Object(h) && (crate::value_ops::heap_value(
                old(self).heap_spec().slots(),
                h.0,
            ) matches Ok(HeapValue::List(xs)) && (crate::value_ops::heap_value(
                final(self).heap_spec().slots(),
                h.0,
            ) matches Ok(HeapValue::List(ys)) && if xs@.len() == 0 {
                v == Value::Nil && ys@ == xs@
            } else {
                v == xs@.last() && ys@ == xs@.drop_last()
            }))),
            (list matches Value::Object(h) && crate::value_ops::heap_value(
                old(self).heap_spec().slots(),
                h.0,
            ) matches Ok(HeapValue::List(_))) ==> r is Ok,
            r is Ok ==> changed_only_at(
                old(self).heap_spec().slots(),
                final(self).heap_spec().slots(),
                list,
            ),
    {
        let h = match coerce_to_list(&self.heap, list) {
            Ok(h) => h,
            Err(e) => return Err(self.exception(e)),
        };
        let mut xs = match self.take_list(h) {
            Ok(xs) => xs,
            Err(e) => return Err(self.exception(e)),
        };
        let last = match xs.pop() {
            Some(x) => x,
            None => Value::Nil,
        };
        match self.put_back(h, HeapValue::List(xs)) {
            Ok(()) => Ok(last),
            Err(e) => Err(self.exception(e)),
        }
    }

    /// Coerces a value to a function.
    pub fn coerce_function(&self, v: Value) -> (r: Result<Closure, FormattedException>)
        ensures
            v matches Value::Function(c) ==> r == Ok::<Closure, FormattedException>(c),
            !(v is Function) ==> r is Err,
    {
        match coerce_to_function(&self.heap, v) {
            Ok(c) => Ok(c),
            Err(e) => Err(self.exception(e)),
        }
    }
}
} // verus!
