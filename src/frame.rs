use vstd::prelude::*;

use crate::ark::FuncId;

verus! {

/// What a call-stack frame stands for.
#[derive(Debug, Clone, Copy, PartialEq, Eq, Structural)]
pub enum FrameKind {
    UserFunction,
    NativeFunction,
    /// A scope inside a user function, whose frame is at `parent_function_index`.
    Temp { parent_function_index: usize },
}

/// A call-stack frame.
#[derive(Debug, Clone, Copy, PartialEq, Eq, Structural)]
pub struct Frame {
    pub function: FuncId,
    /// Where the frame's part of the value stack begins.
    pub stack_start: usize,
    /// The code address to resume at on return; `None` where the caller is
    /// native code or the execution root.
    pub ret: Option<usize>,
    pub kind: FrameKind,
}

} // verus!
