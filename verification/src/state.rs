//! The scanner's persistent state: the mode stack and the indentation
//! counters, with their well-formedness invariant.

use vstd::prelude::*;
use crate::token::{Mode, ScanFault};

verus! {

/// Maximum depth of the mode stack, root mode included.
pub const MAX_MODE_DEPTH: usize = 32;

/// Maximum number of open indentation levels.
pub const MAX_INDENT_DEPTH: usize = 32;

/// Mathematical model of the scanner state: the mode stack (bottom first)
/// and the stack of indentation columns (bottom first).
pub struct ScanState {
    pub modes: Seq<Mode>,
    pub indents: Seq<u16>,
}

/// The indentation column in force: the top counter, or zero when no block
/// is open.
pub open spec fn indent_top(st: ScanState) -> int {
    if st.indents.len() == 0 {
        0
    } else {
        st.indents.last() as int
    }
}

/// The mode in force: the top of the mode stack.
pub open spec fn mode_top(st: ScanState) -> Mode {
    if st.modes.len() == 0 {
        Mode::Normal
    } else {
        st.modes.last()
    }
}

/// Well-formedness of a scanner state: the root mode is always present and
/// only at the bottom, both stacks respect their depth limits, and the open
/// indentation columns are positive and strictly increasing.
pub open spec fn state_wf(st: ScanState) -> bool {
    &&& 1 <= st.modes.len() <= MAX_MODE_DEPTH
    &&& st.modes[0] == Mode::Normal
    &&& forall|i: int| 1 <= i < st.modes.len() ==> st.modes[i] != Mode::Normal
    &&& st.indents.len() <= MAX_INDENT_DEPTH
    &&& forall|i: int| 0 <= i < st.indents.len() ==> st.indents[i] > 0
    &&& forall|i: int, j: int|
        0 <= i < j < st.indents.len() ==> st.indents[i] < st.indents[j]
}

/// The state a fresh scanner starts in: only the root mode, no open blocks.
pub open spec fn init_state() -> ScanState {
    ScanState { modes: seq![Mode::Normal], indents: Seq::empty() }
}

/// The stack of lexical modes. Never empty: the root `Normal` mode is pushed
/// at construction and can never be popped.
pub struct ModeStack {
    modes: Vec<Mode>,
}

impl View for ModeStack {
    type V = Seq<Mode>;

    closed spec fn view(&self) -> Seq<Mode> {
        self.modes@
    }
}

impl ModeStack {
    /// A fresh stack holding only the root mode.
    pub fn new() -> (r: ModeStack)
        ensures
            r@ == seq![Mode::Normal],
    {
        let mut v: Vec<Mode> = Vec::new();
        v.push(Mode::Normal);
        assert(v@ =~= seq![Mode::Normal]);
        ModeStack { modes: v }
    }

    /// Number of modes on the stack, root included.
    pub fn depth(&self) -> (r: usize)
        ensures
            r == self@.len(),
    {
        self.modes.len()
    }

    /// The mode in force (read-only).
    pub fn top(&self) -> (r: Mode)
        requires
            self@.len() >= 1,
        ensures
            r == self@.last(),
    {
        self.modes[self.modes.len() - 1]
    }

    /// The mode at position `i`, bottom first.
    pub fn get(&self, i: usize) -> (r: Mode)
        requires
            i < self@.len(),
        ensures
            r == self@[i as int],
    {
        self.modes[i]
    }

    /// Push a mode; fails with `ModeOverflow` when the depth limit would be
    /// exceeded, leaving the stack unchanged.
    pub fn push(&mut self, m: Mode) -> (r: Result<(), ScanFault>)
        ensures
            old(self)@.len() < MAX_MODE_DEPTH ==> r == Ok::<(), ScanFault>(())
                && final(self)@ == old(self)@.push(m),
            old(self)@.len() >= MAX_MODE_DEPTH ==> r == Err::<(), ScanFault>(
                ScanFault::ModeOverflow,
            ) && final(self)@ == old(self)@,
    {
        if self.modes.len() < MAX_MODE_DEPTH {
            self.modes.push(m);
            Ok(())
        } else {
            Err(ScanFault::ModeOverflow)
        }
    }

    /// Pop the top mode; fails with `ModeUnderflow` when only the root mode
    /// remains, leaving the stack unchanged.
    pub fn pop(&mut self) -> (r: Result<Mode, ScanFault>)
        ensures
            old(self)@.len() >= 2 ==> r == Ok::<Mode, ScanFault>(old(self)@.last())
                && final(self)@ == old(self)@.drop_last(),
            old(self)@.len() < 2 ==> r == Err::<Mode, ScanFault>(ScanFault::ModeUnderflow)
                && final(self)@ == old(self)@,
    {
        if self.modes.len() >= 2 {
            let m = self.modes[self.modes.len() - 1];
            self.modes.pop();
            Ok(m)
        } else {
            Err(ScanFault::ModeUnderflow)
        }
    }
}

/// The stack of open indentation columns.
pub struct IndentStack {
    cols: Vec<u16>,
}

impl View for IndentStack {
    type V = Seq<u16>;

    closed spec fn view(&self) -> Seq<u16> {
        self.cols@
    }
}

impl IndentStack {
    /// A fresh, empty stack: no block is open.
    pub fn new() -> (r: IndentStack)
        ensures
            r@ == Seq::<u16>::empty(),
    {
        let v: Vec<u16> = Vec::new();
        assert(v@ =~= Seq::<u16>::empty());
        IndentStack { cols: v }
    }

    /// Number of open indentation levels.
    pub fn depth(&self) -> (r: usize)
        ensures
            r == self@.len(),
    {
        self.cols.len()
    }

    /// The column in force: the top counter, or zero when no block is open.
    pub fn current(&self) -> (r: u16)
        ensures
            self@.len() == 0 ==> r == 0,
            self@.len() >= 1 ==> r == self@.last(),
    {
        if self.cols.len() == 0 {
            0
        } else {
            self.cols[self.cols.len() - 1]
        }
    }

    /// The column at position `i`, bottom first.
    pub fn get(&self, i: usize) -> (r: u16)
        requires
            i < self@.len(),
        ensures
            r == self@[i as int],
    {
        self.cols[i]
    }

    /// Push a column; fails with `ModeOverflow` when the depth limit would be
    /// exceeded, leaving the stack unchanged.
    pub fn push(&mut self, col: u16) -> (r: Result<(), ScanFault>)
        ensures
            old(self)@.len() < MAX_INDENT_DEPTH ==> r == Ok::<(), ScanFault>(())
                && final(self)@ == old(self)@.push(col),
            old(self)@.len() >= MAX_INDENT_DEPTH ==> r == Err::<(), ScanFault>(
                ScanFault::ModeOverflow,
            ) && final(self)@ == old(self)@,
    {
        if self.cols.len() < MAX_INDENT_DEPTH {
            self.cols.push(col);
            Ok(())
        } else {
            Err(ScanFault::ModeOverflow)
        }
    }

    /// Pop the top column; fails with `ModeUnderflow` on an empty stack.
    pub fn pop(&mut self) -> (r: Result<u16, ScanFault>)
        ensures
            old(self)@.len() >= 1 ==> r == Ok::<u16, ScanFault>(old(self)@.last())
                && final(self)@ == old(self)@.drop_last(),
            old(self)@.len() == 0 ==> r == Err::<u16, ScanFault>(ScanFault::ModeUnderflow)
                && final(self)@ == old(self)@,
    {
        if self.cols.len() >= 1 {
            let c = self.cols[self.cols.len() - 1];
            self.cols.pop();
            Ok(c)
        } else {
            Err(ScanFault::ModeUnderflow)
        }
    }
}

} // verus!
