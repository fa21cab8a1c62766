use crate::token::Type;
use vstd::prelude::*;

verus! {

/// Placement of a region: where it starts and how many words it spans.
#[derive(Debug, Clone, Copy, PartialEq, Eq, Structural)]
pub struct Layout {
    pub offset: usize,
    pub size: usize,
}

impl Layout {
    /// An empty region starting at `off`.
    pub fn new(off: usize) -> (r: Self)
        ensures
            r.offset == off,
            r.size == 0,
    {
        Layout { offset: off, size: 0 }
    }

    /// Closes the region at `off`.
    pub fn end(&mut self, off: usize)
        requires
            old(self).offset <= off,
        ensures
            final(self).offset == old(self).offset,
            final(self).size == off - old(self).offset,
    {
        self.size = off - self.offset;
    }

    /// The first position past the region.
    pub fn last(&self) -> (r: usize)
        requires
            self.offset + self.size <= usize::MAX,
        ensures
            r == self.offset + self.size,
    {
        self.offset + self.size
    }
}

/// A function symbol: its signature and whether it has been defined.
#[derive(Debug)]
pub struct FuncInfo {
    pub id: usize,
    pub ty: Type,
    pub has_impl: bool,
}

impl FuncInfo {
    /// A function that is declared and not yet defined.
    pub fn new(id: usize, ty: Type) -> (r: Self)
        ensures
            r.id == id,
            r.ty == ty,
            !r.has_impl,
    {
        FuncInfo { id, ty, has_impl: false }
    }
}

/// A variable symbol: its scope, the function it belongs to (0 for a
/// global) and its type.
#[derive(Debug)]
pub struct VarInfo {
    pub id: usize,
    pub scope_id: usize,
    pub func_id: usize,
    pub ty: Type,
}

impl VarInfo {
    pub fn is_global(&self) -> (r: bool)
        ensures
            r == (self.func_id == 0),
    {
        self.func_id == 0
    }
}

/// A scope: whether it is the body of a loop, and the function it belongs to.
#[derive(Debug, Clone, Copy, PartialEq, Eq, Structural)]
pub struct ScopeInfo {
    pub id: usize,
    pub is_loop: bool,
    pub func_id: usize,
}

impl ScopeInfo {
    pub fn is_global(&self) -> (r: bool)
        ensures
            r == (self.func_id == 0),
    {
        self.func_id == 0
    }
}

} // verus!
