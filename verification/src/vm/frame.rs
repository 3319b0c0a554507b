//! Call frames.

use vstd::prelude::*;
use crate::object::{Closure, ClosureView};

verus! {

/// The record of one call: the closure that runs, the index of its next
/// instruction, and the stack index where its local values begin.
#[derive(Debug, Clone)]
pub struct Frame {
    pub closure: Closure,
    pub ip: usize,
    pub base_pointer: usize,
}

/// The mathematical value of a [`Frame`].
pub struct FrameView {
    pub closure: ClosureView,
    pub ip: nat,
    pub base_pointer: nat,
}

impl View for Frame {
    type V = FrameView;

    open spec fn view(&self) -> FrameView {
        FrameView {
            closure: self.closure@,
            ip: self.ip as nat,
            base_pointer: self.base_pointer as nat,
        }
    }
}

impl Frame {
    /// A frame at the first instruction of `closure`.
    pub fn new(closure: Closure, base_pointer: usize) -> (frame: Self)
        ensures
            frame@ == (FrameView { closure: closure@, ip: 0, base_pointer: base_pointer as nat }),
    {
        Frame { closure, ip: 0, base_pointer }
    }
}

} // verus!
