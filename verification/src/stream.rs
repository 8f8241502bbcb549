//! The token stream a scanner produces over a whole buffer: the mathematical
//! model of scanning to end of input with a fixed candidate set, and the
//! executable driver that refines it. This is the ground the incremental
//! revalidation contract is stated on.

use vstd::prelude::*;
use crate::token::{TokenKind, ScanResult, ScanFault};
use crate::state::{ScanState, state_wf, mode_top, indent_top};
use crate::classifier::{match_len, lemma_match_len_le};
use crate::scanner::{
    Scanner, SpecStep, spec_step, scan_post, best_match, lemma_best_match_some,
    lemma_step_progress, lemma_step_preserves_wf,
};

verus! {

/// The sequence of tokens (kind and byte length) the scanner emits on the
/// remaining input `s` from state `st`, stepping until no candidate matches,
/// a fault occurs, or the input ends.
pub open spec fn tokens_from(s: Seq<u8>, st: ScanState, cands: Seq<TokenKind>) -> Seq<
    (TokenKind, nat),
>
    decreases s.len(),
{
    match spec_step(s, st, cands) {
        SpecStep::Tok { kind, len, next } => if 1 <= len <= s.len() {
            seq![(kind, len)] + tokens_from(s.skip(len as int), next, cands)
        } else {
            seq![(kind, len)]
        },
        _ => Seq::empty(),
    }
}

/// The bytes consumed and the state reached after `n` successful steps on
/// `s`; `None` when some step within the first `n` does not emit a token.
pub open spec fn run_steps(s: Seq<u8>, st: ScanState, cands: Seq<TokenKind>, n: nat) -> Option<
    (nat, ScanState),
>
    decreases n,
{
    if n == 0 {
        Some((0, st))
    } else {
        match spec_step(s, st, cands) {
            SpecStep::Tok { kind, len, next } => if 1 <= len <= s.len() {
                match run_steps(s.skip(len as int), next, cands, (n - 1) as nat) {
                    Some((c, stf)) => Some(((len + c) as nat, stf)),
                    None => None,
                }
            } else {
                None
            },
            _ => None,
        }
    }
}

/// The first `n` tokens emitted on `s` from `st`.
pub open spec fn tokens_prefix(s: Seq<u8>, st: ScanState, cands: Seq<TokenKind>, n: nat) -> Seq<
    (TokenKind, nat),
>
    decreases n,
{
    if n == 0 {
        Seq::empty()
    } else {
        match spec_step(s, st, cands) {
            SpecStep::Tok { kind, len, next } => if 1 <= len <= s.len() {
                seq![(kind, len)] + tokens_prefix(s.skip(len as int), next, cands, (n - 1) as nat)
            } else {
                Seq::empty()
            },
            _ => Seq::empty(),
        }
    }
}

/// After `n` successful steps the consumed length is within the input.
pub proof fn lemma_run_steps_le(s: Seq<u8>, st: ScanState, cands: Seq<TokenKind>, n: nat)
    requires
        run_steps(s, st, cands, n) is Some,
    ensures
        run_steps(s, st, cands, n)->Some_0.0 <= s.len(),
    decreases n,
{
    if n > 0 {
        let len = spec_step(s, st, cands)->len;
        let next = spec_step(s, st, cands)->next;
        lemma_run_steps_le(s.skip(len as int), next, cands, (n - 1) as nat);
    }
}

/// Successful steps preserve well-formedness of the state reached.
pub proof fn lemma_run_steps_wf(s: Seq<u8>, st: ScanState, cands: Seq<TokenKind>, n: nat)
    requires
        state_wf(st),
        run_steps(s, st, cands, n) is Some,
    ensures
        state_wf(run_steps(s, st, cands, n)->Some_0.1),
    decreases n,
{
    if n > 0 {
        let len = spec_step(s, st, cands)->len;
        let next = spec_step(s, st, cands)->next;
        lemma_step_preserves_wf(s, st, cands);
        lemma_run_steps_wf(s.skip(len as int), next, cands, (n - 1) as nat);
    }
}

/// On empty remaining input nothing matches: the step is always `NoMatch`.
pub proof fn lemma_step_empty(s: Seq<u8>, st: ScanState, cands: Seq<TokenKind>)
    requires
        s.len() == 0,
    ensures
        spec_step(s, st, cands) == SpecStep::NoMatch,
{
    if best_match(s, mode_top(st), indent_top(st), cands) is Some {
        lemma_best_match_some(s, mode_top(st), indent_top(st), cands);
        lemma_match_len_le(
            s,
            mode_top(st),
            indent_top(st),
            best_match(s, mode_top(st), indent_top(st), cands)->Some_0.0,
        );
    }
}

/// Extending a run of successful steps by one more token appends that token's
/// length and moves to the state its transition gives.
pub proof fn lemma_run_steps_snoc(s: Seq<u8>, st: ScanState, cands: Seq<TokenKind>, n: nat)
    requires
        run_steps(s, st, cands, n) is Some,
        spec_step(
            s.skip(run_steps(s, st, cands, n)->Some_0.0 as int),
            run_steps(s, st, cands, n)->Some_0.1,
            cands,
        ) is Tok,
    ensures
        run_steps(s, st, cands, n + 1) == ({
            let c = run_steps(s, st, cands, n)->Some_0.0;
            let st1 = run_steps(s, st, cands, n)->Some_0.1;
            let l = spec_step(s.skip(c as int), st1, cands)->len;
            Some(((c + l) as nat, spec_step(s.skip(c as int), st1, cands)->next))
        }),
    decreases n,
{
    if n == 0 {
        assert(s.skip(0) =~= s);
        lemma_step_progress(s, st, cands);
        let l = spec_step(s, st, cands)->len;
        let nx = spec_step(s, st, cands)->next;
        assert(run_steps(s.skip(l as int), nx, cands, 0) == Some((0 as nat, nx)));
        assert(run_steps(s, st, cands, 1) == Some(((l + 0) as nat, nx)));
    } else {
        let l0 = spec_step(s, st, cands)->len;
        let next0 = spec_step(s, st, cands)->next;
        let c = run_steps(s, st, cands, n)->Some_0.0;
        let cr = run_steps(s.skip(l0 as int), next0, cands, (n - 1) as nat)->Some_0.0;
        let st1 = run_steps(s, st, cands, n)->Some_0.1;
        assert(st1 == run_steps(s.skip(l0 as int), next0, cands, (n - 1) as nat)->Some_0.1);
        assert(c == l0 + cr);
        lemma_run_steps_le(s.skip(l0 as int), next0, cands, (n - 1) as nat);
        assert(s.skip(l0 as int).skip(cr as int) =~= s.skip(c as int));
        lemma_run_steps_snoc(s.skip(l0 as int), next0, cands, (n - 1) as nat);
        let l = spec_step(s.skip(c as int), st1, cands)->len;
        let nx = spec_step(s.skip(c as int), st1, cands)->next;
        assert(run_steps(s.skip(l0 as int), next0, cands, n) == Some(((cr + l) as nat, nx)));
        assert(run_steps(s, st, cands, n + 1) == Some(((l0 + (cr + l)) as nat, nx)));
        assert((l0 + (cr + l)) as nat == (c + l) as nat);
    }
}

/// Decomposition: the whole token stream is the first `n` tokens followed by
/// the stream scanned from the state those steps reach — scanning from a
/// snapshot continues exactly where a scan from scratch left off.
pub proof fn lemma_stream_decompose(s: Seq<u8>, st: ScanState, cands: Seq<TokenKind>, n: nat)
    requires
        run_steps(s, st, cands, n) is Some,
    ensures
        tokens_from(s, st, cands) == tokens_prefix(s, st, cands, n) + tokens_from(
            s.skip(run_steps(s, st, cands, n)->Some_0.0 as int),
            run_steps(s, st, cands, n)->Some_0.1,
            cands,
        ),
    decreases n,
{
    if n == 0 {
        assert(s.skip(0) =~= s);
        assert(tokens_prefix(s, st, cands, 0) + tokens_from(s, st, cands) =~= tokens_from(
            s,
            st,
            cands,
        ));
    } else {
        let len = spec_step(s, st, cands)->len;
        let next = spec_step(s, st, cands)->next;
        let kind = spec_step(s, st, cands)->kind;
        let r = run_steps(s, st, cands, n)->Some_0.0;
        let stf = run_steps(s, st, cands, n)->Some_0.1;
        lemma_stream_decompose(s.skip(len as int), next, cands, (n - 1) as nat);
        lemma_run_steps_le(s.skip(len as int), next, cands, (n - 1) as nat);
        assert(s.skip(len as int).skip(r - len) =~= s.skip(r as int));
        assert(tokens_from(s, st, cands) == seq![(kind, len)] + tokens_prefix(
            s.skip(len as int),
            next,
            cands,
            (n - 1) as nat,
        ) + tokens_from(s.skip(r as int), stf, cands));
        assert(seq![(kind, len)] + tokens_prefix(s.skip(len as int), next, cands, (n - 1) as nat)
            + tokens_from(s.skip(r as int), stf, cands) =~= tokens_prefix(s, st, cands, n)
            + tokens_from(s.skip(r as int), stf, cands));
    }
}

/// Mode balance: a mode-entering token pushes exactly one mode, and once the
/// intervening tokens have brought the stack back to that level, scanning the
/// matching closing delimiter restores the stack to exactly what it was
/// before the opening delimiter.
pub proof fn lemma_mode_balance(s: Seq<u8>, st: ScanState, cands: Seq<TokenKind>, n: nat)
    requires
        spec_step(s, st, cands) matches SpecStep::Tok { kind, .. } && (kind == TokenKind::StringOpen
            || kind == TokenKind::CommentOpen || kind == TokenKind::InterpOpen),
        run_steps(
            s.skip(spec_step(s, st, cands)->len as int),
            spec_step(s, st, cands)->next,
            cands,
            n,
        ) is Some,
        run_steps(
            s.skip(spec_step(s, st, cands)->len as int),
            spec_step(s, st, cands)->next,
            cands,
            n,
        )->Some_0.1.modes == spec_step(s, st, cands)->next.modes,
        ({
            let open_len = spec_step(s, st, cands)->len;
            let mid = run_steps(s.skip(open_len as int), spec_step(s, st, cands)->next, cands, n);
            let s2 = s.skip(open_len as int).skip(mid->Some_0.0 as int);
            spec_step(s2, mid->Some_0.1, cands) matches SpecStep::Tok { kind, .. } && (kind
                == TokenKind::StringClose || kind == TokenKind::CommentClose || kind
                == TokenKind::InterpClose)
        }),
    ensures
        ({
            let open_len = spec_step(s, st, cands)->len;
            let mid = run_steps(s.skip(open_len as int), spec_step(s, st, cands)->next, cands, n);
            let s2 = s.skip(open_len as int).skip(mid->Some_0.0 as int);
            spec_step(s2, mid->Some_0.1, cands)->next.modes == st.modes
        }),
{
    let open_len = spec_step(s, st, cands)->len;
    let st1 = spec_step(s, st, cands)->next;
    let mid = run_steps(s.skip(open_len as int), st1, cands, n);
    let st2 = mid->Some_0.1;
    let s2 = s.skip(open_len as int).skip(mid->Some_0.0 as int);
    let st3 = spec_step(s2, st2, cands)->next;
    assert(st1.modes.len() == st.modes.len() + 1);
    assert(st3.modes =~= st.modes);
}

/// Overflow safety: when nesting already stands at the depth limit and the
/// next token would enter one more mode, the step reports `ModeOverflow` —
/// a fault the parser can tell apart from a syntax error — and the state is
/// unchanged.
pub proof fn lemma_mode_overflow(s: Seq<u8>, st: ScanState, cands: Seq<TokenKind>)
    requires
        st.modes.len() >= crate::state::MAX_MODE_DEPTH,
        best_match(s, mode_top(st), indent_top(st), cands) matches Some((k, _)) && (k
            == TokenKind::StringOpen || k == TokenKind::CommentOpen || k == TokenKind::InterpOpen),
    ensures
        spec_step(s, st, cands) == (SpecStep::Fault { fault: ScanFault::ModeOverflow }),
{
}

impl Scanner {
    /// Scan `buf` from byte offset `pos` to end of input (or to the first
    /// position where no candidate matches, or to a fault), collecting the
    /// emitted tokens. Returns the tokens together with the result of the
    /// last step taken.
    pub fn scan_tokens(&mut self, buf: &Vec<u8>, pos: usize, cands: &Vec<TokenKind>) -> (r: (
        Vec<(TokenKind, usize)>,
        ScanResult,
    ))
        requires
            state_wf(old(self)@),
            pos <= buf@.len(),
        ensures
            state_wf(final(self)@),
            r.0@.map_values(|t: (TokenKind, usize)| (t.0, t.1 as nat)) == tokens_from(
                buf@.skip(pos as int),
                old(self)@,
                cands@,
            ),
            run_steps(buf@.skip(pos as int), old(self)@, cands@, r.0@.len() as nat) is Some,
            final(self)@ == run_steps(
                buf@.skip(pos as int),
                old(self)@,
                cands@,
                r.0@.len() as nat,
            )->Some_0.1,
            ({
                let s0 = buf@.skip(pos as int);
                let c = run_steps(s0, old(self)@, cands@, r.0@.len() as nat)->Some_0.0;
                match spec_step(s0.skip(c as int), final(self)@, cands@) {
                    SpecStep::Tok { .. } => false,
                    SpecStep::NoMatch => r.1 == ScanResult::NoMatch,
                    SpecStep::Fault { fault } => r.1 == (ScanResult::Fault { fault }),
                }
            }),
    {
        let mut out: Vec<(TokenKind, usize)> = Vec::new();
        let mut p = pos;
        let ghost s0 = buf@.skip(pos as int);
        loop
            invariant
                state_wf(self@),
                pos <= p <= buf@.len(),
                s0 == buf@.skip(pos as int),
                tokens_from(s0, old(self)@, cands@) == out@.map_values(
                    |t: (TokenKind, usize)| (t.0, t.1 as nat),
                ) + tokens_from(buf@.skip(p as int), self@, cands@),
                run_steps(s0, old(self)@, cands@, out@.len() as nat) == Some(
                    (((p - pos) as nat, self@)),
                ),
            decreases buf@.len() - p,
        {
            let ghost s = buf@.skip(p as int);
            let ghost pre = self@;
            let bl = buf.len();
            proof {
                assert(buf@.len() == bl as int);
            }
            let step = self.scan_at(buf, p, cands);
            match step {
                ScanResult::Token { kind, len } => {
                    proof {
                        assert(spec_step(s, pre, cands@) is Tok);
                        lemma_step_progress(s, pre, cands@);
                        let l0 = spec_step(s, pre, cands@)->len;
                        assert(l0 <= s.len());
                        assert(s.len() == buf@.len() - p);
                        assert(len == l0 as usize);
                        assert(l0 == len as nat);
                        assert(p + len <= buf@.len());
                        assert(kind == spec_step(s, pre, cands@)->kind);
                        assert(self@ == spec_step(s, pre, cands@)->next);
                        assert(tokens_from(s, pre, cands@) == seq![(kind, l0)] + tokens_from(
                            s.skip(l0 as int),
                            self@,
                            cands@,
                        ));
                        assert(tokens_from(s, pre, cands@) == seq![(kind, len as nat)]
                            + tokens_from(s.skip(len as int), self@, cands@));
                        assert(s.skip(len as int) =~= buf@.skip(p + len));
                    }
                    out.push((kind, len));
                    proof {
                        let n0 = (out@.len() - 1) as nat;
                        assert(s0.skip((p - pos) as int) =~= buf@.skip(p as int));
                        lemma_run_steps_snoc(s0, old(self)@, cands@, n0);
                        assert(out@.map_values(|t: (TokenKind, usize)| (t.0, t.1 as nat))
                            =~= out@.drop_last().map_values(
                            |t: (TokenKind, usize)| (t.0, t.1 as nat),
                        ).push((kind, len as nat)));
                        assert(out@.drop_last().map_values(
                            |t: (TokenKind, usize)| (t.0, t.1 as nat),
                        ).push((kind, len as nat)) + tokens_from(buf@.skip(p + len), self@, cands@)
                            =~= out@.drop_last().map_values(
                            |t: (TokenKind, usize)| (t.0, t.1 as nat),
                        ) + (seq![(kind, len as nat)] + tokens_from(
                            buf@.skip(p + len),
                            self@,
                            cands@,
                        )));
                    }
                    p = p + len;
                },
                _ => {
                    proof {
                        assert(s0.skip((p - pos) as int) =~= buf@.skip(p as int));
                        assert(tokens_from(s, pre, cands@) == Seq::<(TokenKind, nat)>::empty());
                        assert(out@.map_values(|t: (TokenKind, usize)| (t.0, t.1 as nat)) + Seq::<
                            (TokenKind, nat),
                        >::empty() =~= out@.map_values(|t: (TokenKind, usize)| (t.0, t.1 as nat)));
                    }
                    return (out, step);
                },
            }
            if p == buf.len() {
                proof {
                    assert(buf@.skip(p as int).len() == 0);
                    assert(s0.skip((p - pos) as int) =~= buf@.skip(p as int));
                    lemma_step_empty(buf@.skip(p as int), self@, cands@);
                    assert(tokens_from(buf@.skip(p as int), self@, cands@) == Seq::<
                        (TokenKind, nat),
                    >::empty());
                    assert(out@.map_values(|t: (TokenKind, usize)| (t.0, t.1 as nat)) + Seq::<
                        (TokenKind, nat),
                    >::empty() =~= out@.map_values(|t: (TokenKind, usize)| (t.0, t.1 as nat)));
                }
                return (out, ScanResult::NoMatch);
            }
        }
    }
}

} // verus!
