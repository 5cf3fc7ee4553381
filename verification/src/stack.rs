//! The value stack of 32-bit words, and the call stack of frames, each
//! frame carrying a return address and a sparse locals mapping.

use std::collections::BTreeMap;

use vstd::prelude::*;

verus! {

broadcast use {vstd::std_specs::btree::group_btree_axioms, vstd::laws_cmp::group_laws_cmp};

/// The operand stack: a LIFO of 32-bit words.
pub struct Stack {
    pub space: Vec<u32>,
}

impl Stack {
    /// An empty stack.
    pub fn new() -> (s: Stack)
        ensures
            s.space@ == Seq::<u32>::empty(),
    {
        Stack { space: Vec::new() }
    }

    /// Pushes a word on top.
    pub fn push(&mut self, st: u32)
        ensures
            final(self).space@ == old(self).space@.push(st),
    {
        self.space.push(st);
    }

    /// Pops the top word. The stack must not be empty.
    pub fn pop(&mut self) -> (v: u32)
        requires
            old(self).space@.len() > 0,
        ensures
            v == old(self).space@.last(),
            final(self).space@ == old(self).space@.drop_last(),
    {
        let v = self.space.pop().unwrap();
        v
    }

    /// Reads the top word without removing it. The stack must not be
    /// empty.
    pub fn peek(&mut self) -> (v: u32)
        requires
            old(self).space@.len() > 0,
        ensures
            v == old(self).space@.last(),
            final(self).space@ == old(self).space@,
    {
        let n = self.space.len();
        self.space[n - 1]
    }
}

/// The mathematical image of a call frame: its return counter and its
/// locals mapping.
pub struct FrameV {
    pub ret: usize,
    pub locals: Map<usize, u32>,
}

/// One call frame: the return program counter and a sparse mapping from
/// local index to value.
pub struct CallFrame {
    pub ret: usize,
    pub locals: BTreeMap<usize, u32>,
}

impl View for CallFrame {
    type V = FrameV;

    open spec fn view(&self) -> FrameV {
        FrameV { ret: self.ret, locals: self.locals@ }
    }
}

impl DeepView for CallFrame {
    type V = FrameV;

    open spec fn deep_view(&self) -> FrameV {
        self.view()
    }
}

impl CallFrame {
    /// A fresh frame with no locals.
    pub fn new(ret: usize) -> (f: CallFrame)
        ensures
            f.ret == ret,
            f@.locals == Map::<usize, u32>::empty(),
    {
        CallFrame { ret: ret, locals: BTreeMap::new() }
    }

    /// Binds a local index to a value.
    pub fn set_local(&mut self, addr: usize, value: u32)
        ensures
            final(self).ret == old(self).ret,
            final(self)@.locals == old(self)@.locals.insert(addr, value),
    {
        self.locals.insert(addr, value);
    }

    /// The value of a local index, which must be bound.
    pub fn get_local(&mut self, addr: usize) -> (v: u32)
        requires
            old(self)@.locals.contains_key(addr),
        ensures
            v == old(self)@.locals[addr],
            final(self)@ == old(self)@,
    {
        *self.locals.get(&addr).unwrap()
    }

    /// Whether a local index is bound.
    pub fn has_local(&self, addr: usize) -> (r: bool)
        ensures
            r == self@.locals.contains_key(addr),
    {
        self.locals.contains_key(&addr)
    }
}

/// The call stack: a LIFO of call frames.
pub struct CallStack {
    pub frames: Vec<CallFrame>,
}

impl CallStack {
    /// An empty call stack.
    pub fn new() -> (s: CallStack)
        ensures
            s.frames.deep_view() == Seq::<FrameV>::empty(),
    {
        let s = CallStack { frames: Vec::new() };
        proof {
            assert(s.frames.deep_view() =~= Seq::<FrameV>::empty());
        }
        s
    }

    /// Pushes a frame.
    pub fn push(&mut self, sf: CallFrame)
        ensures
            final(self).frames.deep_view() == old(self).frames.deep_view().push(sf@),
    {
        let ghost d0 = self.frames.deep_view();
        let ghost sv = sf@;
        self.frames.push(sf);
        proof {
            assert(self.frames.deep_view() =~= d0.push(sv));
        }
    }

    /// Pops the most recent frame. The call stack must not be empty.
    pub fn pop(&mut self) -> (f: CallFrame)
        requires
            old(self).frames.deep_view().len() > 0,
        ensures
            f@ == old(self).frames.deep_view().last(),
            final(self).frames.deep_view() == old(self).frames.deep_view().drop_last(),
    {
        let ghost d0 = self.frames.deep_view();
        let f = self.frames.pop().unwrap();
        proof {
            assert(self.frames.deep_view() =~= d0.drop_last());
        }
        f
    }
}

} // verus!
