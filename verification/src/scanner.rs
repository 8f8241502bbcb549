//! The scanner state machine: selects, among the candidate token kinds the
//! parser is willing to accept, the one actually present at the cursor
//! (longest match first, candidate order breaking ties), applies the mode
//! transition the token implies, and advances the cursor.

use vstd::prelude::*;
use crate::cursor::Cursor;
use crate::token::{Mode, TokenKind, ScanFault, ScanResult};
use crate::state::{
    ScanState, ModeStack, IndentStack, state_wf, init_state, mode_top, indent_top,
    MAX_MODE_DEPTH, MAX_INDENT_DEPTH,
};
use crate::classifier::{match_len, classify, lemma_match_len_le};

verus! {

/// The largest indentation column a block can open at; wider columns cannot
/// be recorded in a state snapshot.
pub const MAX_INDENT_COL: usize = 65535;

/// The best candidate at the head of `s`: the kind with the longest match,
/// ties broken in favour of the kind listed earlier in `cands` (the parser's
/// priority order). `None` when no candidate matches at all.
pub open spec fn best_match(s: Seq<u8>, mode: Mode, itop: int, cands: Seq<TokenKind>) -> Option<
    (TokenKind, nat),
>
    decreases cands.len(),
{
    if cands.len() == 0 {
        None
    } else {
        let l0 = match_len(s, mode, itop, cands[0]);
        let rest = best_match(s, mode, itop, cands.skip(1));
        if l0 == 0 {
            rest
        } else {
            match rest {
                None => Some((cands[0], l0)),
                Some((k, l)) => if l > l0 {
                    Some((k, l))
                } else {
                    Some((cands[0], l0))
                },
            }
        }
    }
}

/// A winning candidate is one of the candidates, matches with the reported
/// length, and that length is positive.
pub proof fn lemma_best_match_some(s: Seq<u8>, mode: Mode, itop: int, cands: Seq<TokenKind>)
    requires
        best_match(s, mode, itop, cands) is Some,
    ensures
        cands.contains(best_match(s, mode, itop, cands)->Some_0.0),
        match_len(s, mode, itop, best_match(s, mode, itop, cands)->Some_0.0) == best_match(
            s,
            mode,
            itop,
            cands,
        )->Some_0.1,
        best_match(s, mode, itop, cands)->Some_0.1 >= 1,
    decreases cands.len(),
{
    if cands.len() > 0 {
        if best_match(s, mode, itop, cands.skip(1)) is Some {
            lemma_best_match_some(s, mode, itop, cands.skip(1));
            assert(cands.skip(1).contains(best_match(s, mode, itop, cands.skip(1))->Some_0.0)
                ==> cands.contains(best_match(s, mode, itop, cands.skip(1))->Some_0.0)) by {
                let kr = best_match(s, mode, itop, cands.skip(1))->Some_0.0;
                if cands.skip(1).contains(kr) {
                    let i = choose|i: int| 0 <= i < cands.skip(1).len() && cands.skip(1)[i] == kr;
                    assert(cands[i + 1] == kr);
                }
            }
        }
        assert(cands.contains(cands[0]));
    }
}

/// Maximal munch: no candidate matches more bytes than the winner.
pub proof fn lemma_best_match_is_max(s: Seq<u8>, mode: Mode, itop: int, cands: Seq<TokenKind>)
    ensures
        best_match(s, mode, itop, cands) is Some ==> forall|i: int|
            0 <= i < cands.len() ==> match_len(s, mode, itop, cands[i]) <= best_match(
                s,
                mode,
                itop,
                cands,
            )->Some_0.1,
        best_match(s, mode, itop, cands) is None ==> forall|i: int|
            0 <= i < cands.len() ==> match_len(s, mode, itop, cands[i]) == 0,
    decreases cands.len(),
{
    if cands.len() > 0 {
        lemma_best_match_is_max(s, mode, itop, cands.skip(1));
        assert(forall|i: int| 1 <= i < cands.len() ==> cands.skip(1)[i - 1] == cands[i]);
    }
}

/// Priority: every candidate listed before the winner matches strictly fewer
/// bytes (so an equal-length match earlier in the list would have won).
pub proof fn lemma_best_match_priority(s: Seq<u8>, mode: Mode, itop: int, cands: Seq<TokenKind>)
    requires
        best_match(s, mode, itop, cands) is Some,
    ensures
        exists|w: int|
            {
                &&& 0 <= w < cands.len()
                &&& cands[w] == best_match(s, mode, itop, cands)->Some_0.0
                &&& match_len(s, mode, itop, cands[w]) == best_match(s, mode, itop, cands)->Some_0.1
                &&& forall|j: int|
                    0 <= j < w ==> match_len(s, mode, itop, cands[j]) < best_match(
                        s,
                        mode,
                        itop,
                        cands,
                    )->Some_0.1
            },
    decreases cands.len(),
{
    let l0 = match_len(s, mode, itop, cands[0]);
    let rest = best_match(s, mode, itop, cands.skip(1));
    let win = best_match(s, mode, itop, cands)->Some_0;
    if l0 != 0 && (rest is None || rest->Some_0.1 <= l0) {
        assert(cands[0] == win.0 && match_len(s, mode, itop, cands[0]) == win.1);
        assert(0 <= 0 < cands.len() && cands[0] == win.0 && match_len(s, mode, itop, cands[0])
            == win.1 && forall|j: int| 0 <= j < 0 ==> match_len(s, mode, itop, cands[j]) < win.1);
    } else {
        lemma_best_match_priority(s, mode, itop, cands.skip(1));
        lemma_best_match_some(s, mode, itop, cands.skip(1));
        let wr = choose|wr: int|
            {
                &&& 0 <= wr < cands.skip(1).len()
                &&& cands.skip(1)[wr] == rest->Some_0.0
                &&& match_len(s, mode, itop, cands.skip(1)[wr]) == rest->Some_0.1
                &&& forall|j: int|
                    0 <= j < wr ==> match_len(s, mode, itop, cands.skip(1)[j]) < rest->Some_0.1
            };
        assert(forall|i: int| 1 <= i < cands.len() ==> cands.skip(1)[i - 1] == cands[i]);
        let w = wr + 1;
        assert(cands[w] == win.0 && match_len(s, mode, itop, cands[w]) == win.1);
        assert(forall|j: int| 0 <= j < w ==> match_len(s, mode, itop, cands[j]) < win.1) by {
            assert(forall|j: int|
                1 <= j < w ==> cands[j] == cands.skip(1)[j - 1] && match_len(
                    s,
                    mode,
                    itop,
                    cands.skip(1)[j - 1],
                ) < win.1);
            assert(match_len(s, mode, itop, cands[0]) < win.1);
        }
    }
}

/// The indentation stack after closing blocks down to column `col`: counters
/// above `col` are removed, the rest are kept.
pub open spec fn dedent_to(ind: Seq<u16>, col: int) -> Seq<u16>
    decreases ind.len(),
{
    if ind.len() == 0 || ind.last() <= col {
        ind
    } else {
        dedent_to(ind.drop_last(), col)
    }
}

/// The mode transition a recognized token implies, applied to the state.
/// `len` is the token's length (the column of an indentation token is
/// `len - 1`). Fails when a push would exceed a depth limit, or a pop would
/// remove the root mode.
pub open spec fn apply_token(st: ScanState, k: TokenKind, len: nat) -> Result<ScanState, ScanFault> {
    match k {
        TokenKind::StringOpen => if st.modes.len() < MAX_MODE_DEPTH {
            Ok(ScanState { modes: st.modes.push(Mode::InString), ..st })
        } else {
            Err(ScanFault::ModeOverflow)
        },
        TokenKind::CommentOpen => if st.modes.len() < MAX_MODE_DEPTH {
            Ok(ScanState { modes: st.modes.push(Mode::InComment), ..st })
        } else {
            Err(ScanFault::ModeOverflow)
        },
        TokenKind::InterpOpen => if st.modes.len() < MAX_MODE_DEPTH {
            Ok(ScanState { modes: st.modes.push(Mode::Interp), ..st })
        } else {
            Err(ScanFault::ModeOverflow)
        },
        TokenKind::StringClose | TokenKind::InterpClose | TokenKind::CommentClose
            | TokenKind::UnterminatedString | TokenKind::UnterminatedComment => if st.modes.len()
            >= 2 {
            Ok(ScanState { modes: st.modes.drop_last(), ..st })
        } else {
            Err(ScanFault::ModeUnderflow)
        },
        TokenKind::Indent => if st.indents.len() < MAX_INDENT_DEPTH && len - 1
            <= MAX_INDENT_COL {
            Ok(ScanState { indents: st.indents.push((len - 1) as u16), ..st })
        } else {
            Err(ScanFault::ModeOverflow)
        },
        TokenKind::Dedent => Ok(ScanState { indents: dedent_to(st.indents, len - 1), ..st }),
        _ => Ok(st),
    }
}

/// The outcome of one scan step, at the level of the mathematical model.
pub enum SpecStep {
    Tok { kind: TokenKind, len: nat, next: ScanState },
    NoMatch,
    Fault { fault: ScanFault },
}

/// One step of the scanner on the remaining input `s`: pick the best
/// candidate, then apply the transition it implies.
pub open spec fn spec_step(s: Seq<u8>, st: ScanState, cands: Seq<TokenKind>) -> SpecStep {
    match best_match(s, mode_top(st), indent_top(st), cands) {
        None => SpecStep::NoMatch,
        Some((k, l)) => match apply_token(st, k, l) {
            Ok(next) => SpecStep::Tok { kind: k, len: l, next },
            Err(fault) => SpecStep::Fault { fault },
        },
    }
}

/// Progress: an emitted token is never zero-width and never longer than the
/// remaining input, so every successful step advances the cursor.
pub proof fn lemma_step_progress(s: Seq<u8>, st: ScanState, cands: Seq<TokenKind>)
    requires
        spec_step(s, st, cands) is Tok,
    ensures
        1 <= spec_step(s, st, cands)->len <= s.len(),
{
    lemma_best_match_some(s, mode_top(st), indent_top(st), cands);
    lemma_match_len_le(s, mode_top(st), indent_top(st), spec_step(s, st, cands)->kind);
}

/// Closing blocks keeps a prefix of the indentation stack.
proof fn lemma_dedent_to_prefix(ind: Seq<u16>, col: int)
    ensures
        dedent_to(ind, col).len() <= ind.len(),
        dedent_to(ind, col) == ind.take(dedent_to(ind, col).len() as int),
    decreases ind.len(),
{
    if !(ind.len() == 0 || ind.last() <= col) {
        lemma_dedent_to_prefix(ind.drop_last(), col);
        assert(ind.drop_last() == ind.take(ind.len() - 1));
        assert(ind.take(ind.len() - 1).take(dedent_to(ind, col).len() as int) =~= ind.take(
            dedent_to(ind, col).len() as int,
        ));
    } else {
        assert(ind.take(ind.len() as int) =~= ind);
    }
}

/// A successful step preserves well-formedness of the scanner state.
pub proof fn lemma_step_preserves_wf(s: Seq<u8>, st: ScanState, cands: Seq<TokenKind>)
    requires
        state_wf(st),
        spec_step(s, st, cands) is Tok,
    ensures
        state_wf(spec_step(s, st, cands)->next),
{
    let mode = mode_top(st);
    let itop = indent_top(st);
    lemma_best_match_some(s, mode, itop, cands);
    let k = spec_step(s, st, cands)->kind;
    let l = spec_step(s, st, cands)->len;
    let next = spec_step(s, st, cands)->next;
    match k {
        TokenKind::Indent => {
            assert(l - 1 > itop);
            assert(forall|i: int| 0 <= i < st.indents.len() ==> st.indents[i] <= itop);
        },
        TokenKind::Dedent => {
            lemma_dedent_to_prefix(st.indents, l - 1);
            let n = dedent_to(st.indents, l - 1).len() as int;
            assert(forall|i: int| 0 <= i < n ==> next.indents[i] == st.indents[i]);
        },
        _ => {},
    }
}

/// In a well-formed state the scanner never pops the root mode: a closing or
/// unterminated token only matches in a pushed mode, so the stack is at least
/// two deep and the step cannot fault with `ModeUnderflow`.
pub proof fn lemma_no_underflow(s: Seq<u8>, st: ScanState, cands: Seq<TokenKind>)
    requires
        state_wf(st),
    ensures
        !(spec_step(s, st, cands) matches SpecStep::Fault { fault }
            && fault == ScanFault::ModeUnderflow),
{
    let mode = mode_top(st);
    let itop = indent_top(st);
    if best_match(s, mode, itop, cands) is Some {
        lemma_best_match_some(s, mode, itop, cands);
        let k = best_match(s, mode, itop, cands)->Some_0.0;
        match k {
            TokenKind::StringClose | TokenKind::InterpClose | TokenKind::CommentClose
                | TokenKind::UnterminatedString | TokenKind::UnterminatedComment => {
                assert(mode != Mode::Normal);
                assert(st.modes.len() >= 2) by {
                    if st.modes.len() == 1 {
                        assert(st.modes.last() == st.modes[0]);
                    }
                }
            },
            _ => {},
        }
    }
}

/// The scanner: an explicit stack of lexical modes plus the indentation
/// counters. Fresh scanners hold only the root mode and no open blocks.
pub struct Scanner {
    modes: ModeStack,
    indents: IndentStack,
}

impl View for Scanner {
    type V = ScanState;

    closed spec fn view(&self) -> ScanState {
        ScanState { modes: self.modes@, indents: self.indents@ }
    }
}

/// What `scan` promises: the returned result and the state after the call are
/// exactly what one specification step on the remaining input says.
pub open spec fn scan_post(
    s: Seq<u8>,
    st0: ScanState,
    cands: Seq<TokenKind>,
    r: ScanResult,
    st1: ScanState,
) -> bool {
    match spec_step(s, st0, cands) {
        SpecStep::Tok { kind, len, next } => {
            &&& r == (ScanResult::Token { kind, len: len as usize })
            &&& st1 == next
            &&& 1 <= len <= s.len()
        },
        SpecStep::NoMatch => r == ScanResult::NoMatch && st1 == st0,
        SpecStep::Fault { fault } => r == (ScanResult::Fault { fault }) && st1 == st0,
    }
}

impl Scanner {
    /// A fresh scanner: mode stack holding only the root mode, no open
    /// indentation blocks.
    pub fn new() -> (r: Scanner)
        ensures
            r@ == init_state(),
            state_wf(r@),
    {
        let r = Scanner { modes: ModeStack::new(), indents: IndentStack::new() };
        proof {
            assert(r@.modes =~= init_state().modes);
            assert(r@.indents =~= init_state().indents);
            assert(r@ == init_state());
        }
        r
    }

    /// Rebuild a scanner from its two stacks, as the deserializer does.
    pub fn from_parts(modes: ModeStack, indents: IndentStack) -> (r: Scanner)
        ensures
            r@ == (ScanState { modes: modes@, indents: indents@ }),
    {
        Scanner { modes, indents }
    }

    /// Read access to the mode stack.
    pub fn mode_at(&self, i: usize) -> (r: Mode)
        requires
            i < self@.modes.len(),
        ensures
            r == self@.modes[i as int],
    {
        self.modes.get(i)
    }

    /// Read access to the indentation counters.
    pub fn indent_at(&self, i: usize) -> (r: u16)
        requires
            i < self@.indents.len(),
        ensures
            r == self@.indents[i as int],
    {
        self.indents.get(i)
    }

    /// Number of modes on the stack, root included.
    pub fn mode_depth(&self) -> (r: usize)
        ensures
            r == self@.modes.len(),
    {
        self.modes.depth()
    }

    /// Number of open indentation blocks.
    pub fn indent_depth(&self) -> (r: usize)
        ensures
            r == self@.indents.len(),
    {
        self.indents.depth()
    }

    /// Scan one token at byte offset `pos` of `buf`, restricted to the
    /// candidate kinds in `cands` (in priority order). On success the token's
    /// mode transition has been applied to the scanner; on `NoMatch` or a
    /// fault the scanner is unchanged.
    ///
    /// Inside a pushed mode the expected terminator is the only kind that can
    /// match at its delimiter byte, so the context-specific continuation
    /// token always takes priority and one classification pass suffices.
    ///
    /// At end of input inside a pushed mode the result is the designated
    /// unterminated error token covering the remaining content; when no
    /// content remains at all, a zero-width token is forbidden (progress),
    /// so the scanner returns `NoMatch` and leaves the mode stack as it
    /// stands rather than closing the mode silently.
    pub fn scan_at(&mut self, buf: &Vec<u8>, pos: usize, cands: &Vec<TokenKind>) -> (r: ScanResult)
        requires
            state_wf(old(self)@),
            pos <= buf@.len(),
        ensures
            scan_post(buf@.skip(pos as int), old(self)@, cands@, r, final(self)@),
            state_wf(final(self)@),
    {
        let ghost s = buf@.skip(pos as int);
        let mode = self.modes.top();
        let itop = self.indents.current();
        proof {
            assert(mode == mode_top(self@));
            assert(itop as int == indent_top(self@));
        }

        // Find the best candidate: longest match, earliest listed on ties.
        // Folding from the back of the list mirrors the recursion in
        // `best_match`.
        let mut i = cands.len();
        let mut found = false;
        let mut best_kind = TokenKind::Identifier;
        let mut best_len: usize = 0;
        while i > 0
            invariant
                i <= cands@.len(),
                pos <= buf@.len(),
                s == buf@.skip(pos as int),
                mode == mode_top(self@),
                itop as int == indent_top(self@),
                !found ==> best_match(s, mode, itop as int, cands@.skip(i as int)) is None,
                found ==> best_match(s, mode, itop as int, cands@.skip(i as int)) == Some::<
                    (TokenKind, nat),
                >((best_kind, best_len as nat)),
                found ==> best_len >= 1 && pos + best_len <= buf@.len(),
            decreases i,
        {
            i = i - 1;
            let l = classify(buf, pos, mode, itop, cands[i]);
            proof {
                assert(cands@.skip(i as int)[0] == cands@[i as int]);
                assert(cands@.skip(i as int).skip(1) =~= cands@.skip(i + 1));
            }
            if l > 0 && (!found || l >= best_len) {
                best_kind = cands[i];
                best_len = l;
                found = true;
            }
        }
        proof {
            assert(cands@.skip(0) =~= cands@);
        }

        if !found {
            return ScanResult::NoMatch;
        }

        // Apply the mode transition the winning token implies.
        match best_kind {
            TokenKind::StringOpen => match self.modes.push(Mode::InString) {
                Ok(_) => ScanResult::Token { kind: best_kind, len: best_len },
                Err(fault) => ScanResult::Fault { fault },
            },
            TokenKind::CommentOpen => match self.modes.push(Mode::InComment) {
                Ok(_) => ScanResult::Token { kind: best_kind, len: best_len },
                Err(fault) => ScanResult::Fault { fault },
            },
            TokenKind::InterpOpen => match self.modes.push(Mode::Interp) {
                Ok(_) => ScanResult::Token { kind: best_kind, len: best_len },
                Err(fault) => ScanResult::Fault { fault },
            },
            TokenKind::StringClose | TokenKind::InterpClose | TokenKind::CommentClose
                | TokenKind::UnterminatedString | TokenKind::UnterminatedComment => match self
                .modes
                .pop() {
                Ok(_) => ScanResult::Token { kind: best_kind, len: best_len },
                Err(fault) => ScanResult::Fault { fault },
            },
            TokenKind::Indent => {
                let col = best_len - 1;
                if col > MAX_INDENT_COL {
                    return ScanResult::Fault { fault: ScanFault::ModeOverflow };
                }
                match self.indents.push(col as u16) {
                    Ok(_) => {
                        proof {
                            lemma_step_preserves_wf(s, old(self)@, cands@);
                        }
                        ScanResult::Token { kind: best_kind, len: best_len }
                    },
                    Err(fault) => ScanResult::Fault { fault },
                }
            },
            TokenKind::Dedent => {
                let col = best_len - 1;
                let ghost ind0 = self@.indents;
                loop
                    invariant
                        self@.modes == old(self)@.modes,
                        self@.indents.len() <= ind0.len(),
                        dedent_to(ind0, col as int) == dedent_to(self@.indents, col as int),
                        forall|j: int|
                            0 <= j < self@.indents.len() ==> self@.indents[j] == ind0[j],
                    ensures
                        self@.modes == old(self)@.modes,
                        dedent_to(ind0, col as int) == dedent_to(self@.indents, col as int),
                        self@.indents.len() == 0 || self@.indents.last() <= col,
                    decreases self@.indents.len(),
                {
                    let d = self.indents.depth();
                    if d == 0 {
                        break ;
                    }
                    let topc = self.indents.current();
                    if topc as usize <= col {
                        break ;
                    }
                    let popped = self.indents.pop();
                    proof {
                        assert(popped is Ok);
                    }
                }
                proof {
                    assert(dedent_to(self@.indents, col as int) == self@.indents);
                    lemma_step_preserves_wf(s, old(self)@, cands@);
                }
                ScanResult::Token { kind: best_kind, len: best_len }
            },
            _ => {
                proof {
                    assert(apply_token(self@, best_kind, best_len as nat) == Ok::<
                        ScanState,
                        ScanFault,
                    >(self@));
                }
                ScanResult::Token { kind: best_kind, len: best_len }
            },
        }
    }

    /// Scan one token at the cursor, restricted to the candidate kinds in
    /// `cands`. On success the cursor advances past the token; on `NoMatch`
    /// or a fault neither the cursor nor the scanner state moves.
    pub fn scan(&mut self, cursor: &mut Cursor, buf: &Vec<u8>, cands: &Vec<TokenKind>) -> (r:
        ScanResult)
        requires
            state_wf(old(self)@),
            old(cursor).wf(),
            old(cursor).spec_pos() <= buf@.len(),
        ensures
            scan_post(
                buf@.skip(old(cursor).spec_pos()),
                old(self)@,
                cands@,
                r,
                final(self)@,
            ),
            state_wf(final(self)@),
            r matches ScanResult::Token { kind, len } ==> final(cursor).spec_pos() == old(
                cursor,
            ).spec_pos() + len,
            !(r is Token) ==> final(cursor).spec_pos() == old(cursor).spec_pos(),
            final(cursor).spec_checkpoint() == old(cursor).spec_checkpoint(),
            final(cursor).wf(),
    {
        let pos = cursor.position();
        let r = self.scan_at(buf, pos, cands);
        match r {
            ScanResult::Token { kind: _, len } => {
                let total = buf.len();
                proof {
                    assert(pos + len <= total);
                }
                cursor.advance(len);
            },
            _ => {},
        }
        r
    }
}

} // verus!
