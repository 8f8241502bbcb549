//! The incremental revalidation bridge: after an edit, scanning may resume
//! from a snapshot taken at a token boundary safely behind the edit, and the
//! tokens obtained that way are exactly the tokens a scan from scratch of the
//! edited buffer would produce. The correctness-critical direction is
//! under-invalidation: the bridge is conservative by design, restarting only
//! from snapshots whose whole lookahead window lies before the edit.

use vstd::prelude::*;
use crate::token::{Mode, TokenKind};
use crate::state::{ScanState, mode_top, indent_top};
use crate::classifier::{
    match_len, mode_is_code, ident_run, digit_run, hspace_run, space_run, string_content_run,
    string_content_stop, comment_content_run, newline_len, is_ident_byte, is_digit_byte,
    is_hspace_byte,
};
use crate::scanner::{spec_step, best_match, lemma_best_match_some, lemma_best_match_is_max};
use crate::stream::{tokens_from, tokens_prefix, run_steps, lemma_stream_decompose};

verus! {

/// How many bytes beyond a token's end one scan step may read: one byte to
/// see that a run has ended, one more because the interpolation opener is two
/// bytes wide.
pub const REVALIDATION_LOOKAHEAD: usize = 2;

proof fn lemma_ident_run_local(s1: Seq<u8>, s2: Seq<u8>, w: int)
    requires
        ident_run(s1) + 2 <= w,
        w <= s1.len(),
        w <= s2.len(),
        forall|i: int| 0 <= i < w ==> s1[i] == s2[i],
    ensures
        ident_run(s2) == ident_run(s1),
    decreases w,
{
    assert(s2[0] == s1[0]);
    if ident_run(s1) != 0 {
        assert forall|i: int| 0 <= i < w - 1 implies s1.skip(1)[i] == s2.skip(1)[i] by {
            assert(s1.skip(1)[i] == s1[i + 1]);
            assert(s2.skip(1)[i] == s2[i + 1]);
        }
        lemma_ident_run_local(s1.skip(1), s2.skip(1), w - 1);
    }
}

proof fn lemma_digit_run_local(s1: Seq<u8>, s2: Seq<u8>, w: int)
    requires
        digit_run(s1) + 2 <= w,
        w <= s1.len(),
        w <= s2.len(),
        forall|i: int| 0 <= i < w ==> s1[i] == s2[i],
    ensures
        digit_run(s2) == digit_run(s1),
    decreases w,
{
    assert(s2[0] == s1[0]);
    if digit_run(s1) != 0 {
        assert forall|i: int| 0 <= i < w - 1 implies s1.skip(1)[i] == s2.skip(1)[i] by {
            assert(s1.skip(1)[i] == s1[i + 1]);
            assert(s2.skip(1)[i] == s2[i + 1]);
        }
        lemma_digit_run_local(s1.skip(1), s2.skip(1), w - 1);
    }
}

proof fn lemma_hspace_run_local(s1: Seq<u8>, s2: Seq<u8>, w: int)
    requires
        hspace_run(s1) + 2 <= w,
        w <= s1.len(),
        w <= s2.len(),
        forall|i: int| 0 <= i < w ==> s1[i] == s2[i],
    ensures
        hspace_run(s2) == hspace_run(s1),
    decreases w,
{
    assert(s2[0] == s1[0]);
    if hspace_run(s1) != 0 {
        assert forall|i: int| 0 <= i < w - 1 implies s1.skip(1)[i] == s2.skip(1)[i] by {
            assert(s1.skip(1)[i] == s1[i + 1]);
            assert(s2.skip(1)[i] == s2[i + 1]);
        }
        lemma_hspace_run_local(s1.skip(1), s2.skip(1), w - 1);
    }
}

proof fn lemma_space_run_local(s1: Seq<u8>, s2: Seq<u8>, w: int)
    requires
        space_run(s1) + 2 <= w,
        w <= s1.len(),
        w <= s2.len(),
        forall|i: int| 0 <= i < w ==> s1[i] == s2[i],
    ensures
        space_run(s2) == space_run(s1),
    decreases w,
{
    assert(s2[0] == s1[0]);
    if space_run(s1) != 0 {
        assert forall|i: int| 0 <= i < w - 1 implies s1.skip(1)[i] == s2.skip(1)[i] by {
            assert(s1.skip(1)[i] == s1[i + 1]);
            assert(s2.skip(1)[i] == s2[i + 1]);
        }
        lemma_space_run_local(s1.skip(1), s2.skip(1), w - 1);
    }
}

proof fn lemma_string_run_local(s1: Seq<u8>, s2: Seq<u8>, w: int)
    requires
        string_content_run(s1) + 2 <= w,
        w <= s1.len(),
        w <= s2.len(),
        forall|i: int| 0 <= i < w ==> s1[i] == s2[i],
    ensures
        string_content_run(s2) == string_content_run(s1),
    decreases w,
{
    assert(s2[0] == s1[0]);
    assert(s2[1] == s1[1]);
    if string_content_run(s1) != 0 {
        assert(!string_content_stop(s1));
        assert(!string_content_stop(s2));
        assert forall|i: int| 0 <= i < w - 1 implies s1.skip(1)[i] == s2.skip(1)[i] by {
            assert(s1.skip(1)[i] == s1[i + 1]);
            assert(s2.skip(1)[i] == s2[i + 1]);
        }
        lemma_string_run_local(s1.skip(1), s2.skip(1), w - 1);
    } else {
        assert(string_content_stop(s1));
        assert(string_content_stop(s2));
    }
}

proof fn lemma_comment_run_local(s1: Seq<u8>, s2: Seq<u8>, w: int)
    requires
        comment_content_run(s1) + 2 <= w,
        w <= s1.len(),
        w <= s2.len(),
        forall|i: int| 0 <= i < w ==> s1[i] == s2[i],
    ensures
        comment_content_run(s2) == comment_content_run(s1),
    decreases w,
{
    assert(s2[0] == s1[0]);
    if comment_content_run(s1) != 0 {
        assert forall|i: int| 0 <= i < w - 1 implies s1.skip(1)[i] == s2.skip(1)[i] by {
            assert(s1.skip(1)[i] == s1[i + 1]);
            assert(s2.skip(1)[i] == s2[i + 1]);
        }
        lemma_comment_run_local(s1.skip(1), s2.skip(1), w - 1);
    }
}

/// What the existence of a winning candidate of length `l` pins down about
/// the head of the input: the content runs of the pushed modes are bounded by
/// `l`, and a winner on a newline byte is an indentation token of exactly the
/// newline's length.
proof fn lemma_winner_shape(s1: Seq<u8>, mode: Mode, itop: int, kw: TokenKind, l: nat)
    requires
        match_len(s1, mode, itop, kw) == l,
        l >= 1,
        l + 2 <= s1.len(),
    ensures
        mode == Mode::InString ==> string_content_run(s1) <= l,
        mode == Mode::InComment ==> comment_content_run(s1) <= l,
        (mode_is_code(mode) && s1[0] == 10) ==> mode == Mode::Normal && newline_len(s1) == l,
{
    match kw {
        TokenKind::Identifier => {
            assert(ident_run(s1) >= 1);
            assert(is_ident_byte(s1[0]));
        },
        TokenKind::KwLet => {
            assert(s1[0] == 108);
        },
        TokenKind::Number => {
            assert(is_digit_byte(s1[0]));
        },
        TokenKind::Whitespace => {
            assert(is_hspace_byte(s1[0]));
        },
        TokenKind::Newline | TokenKind::Indent | TokenKind::Dedent => {
            assert(mode == Mode::Normal && newline_len(s1) == l);
        },
        TokenKind::StringOpen => {
            assert(s1[0] == 34);
        },
        TokenKind::CommentOpen => {
            assert(s1[0] == 35);
        },
        TokenKind::InterpClose => {
            assert(s1[0] == 41);
        },
        TokenKind::StringClose => {
            assert(s1[0] == 34);
            assert(string_content_stop(s1));
        },
        TokenKind::InterpOpen => {
            assert(s1[0] == 36 && s1[1] == 40);
            assert(string_content_stop(s1));
        },
        TokenKind::StringContent => {
            assert(string_content_run(s1) == l);
        },
        TokenKind::UnterminatedString => {
            assert(string_content_run(s1) == s1.len());
            assert(false);
        },
        TokenKind::CommentClose => {
            assert(s1[0] == 35);
        },
        TokenKind::CommentContent => {
            assert(comment_content_run(s1) == l);
        },
        TokenKind::UnterminatedComment => {
            assert(comment_content_run(s1) == s1.len());
            assert(false);
        },
    }
}

/// Step locality, kind by kind: one scan step reads at most two bytes past
/// the token it emits, so on two buffers that agree over that window every
/// candidate matches the same number of bytes.
proof fn lemma_match_local(
    s1: Seq<u8>,
    s2: Seq<u8>,
    mode: Mode,
    itop: int,
    kw: TokenKind,
    l: nat,
    k2: TokenKind,
)
    requires
        match_len(s1, mode, itop, kw) == l,
        l >= 1,
        l + 2 <= s1.len(),
        l + 2 <= s2.len(),
        forall|i: int| 0 <= i < l + 2 ==> s1[i] == s2[i],
        match_len(s1, mode, itop, k2) <= l,
    ensures
        match_len(s2, mode, itop, k2) == match_len(s1, mode, itop, k2),
{
    let w = l + 2 as int;
    lemma_winner_shape(s1, mode, itop, kw, l);
    assert(s2[0] == s1[0]);
    assert(s2[1] == s1[1]);
    match k2 {
        TokenKind::Identifier => {
            if mode_is_code(mode) {
                lemma_ident_run_local(s1, s2, w as int);
            }
        },
        TokenKind::KwLet => {
            assert(s2[2] == s1[2]);
        },
        TokenKind::Number => {
            if mode_is_code(mode) {
                lemma_digit_run_local(s1, s2, w as int);
            }
        },
        TokenKind::Whitespace => {
            if mode_is_code(mode) {
                lemma_hspace_run_local(s1, s2, w as int);
            }
        },
        TokenKind::Newline | TokenKind::Indent | TokenKind::Dedent => {
            if mode == Mode::Normal && s1[0] == 10 {
                assert(newline_len(s1) == l);
                assert(space_run(s1.skip(1)) == l - 1);
                assert forall|i: int| 0 <= i < w - 1 implies s1.skip(1)[i] == s2.skip(1)[i] by {
                    assert(s1.skip(1)[i] == s1[i + 1]);
                    assert(s2.skip(1)[i] == s2[i + 1]);
                }
                lemma_space_run_local(s1.skip(1), s2.skip(1), w - 1);
                assert(newline_len(s2) == newline_len(s1));
            }
        },
        TokenKind::StringOpen | TokenKind::CommentOpen | TokenKind::InterpClose
            | TokenKind::StringClose | TokenKind::CommentClose => {},
        TokenKind::InterpOpen => {},
        TokenKind::StringContent | TokenKind::UnterminatedString => {
            if mode == Mode::InString {
                let c1 = string_content_run(s1);
                assert(c1 <= l);
                lemma_string_run_local(s1, s2, w as int);
                assert(string_content_run(s2) == c1);
                assert(c1 < s1.len() && c1 < s2.len());
            }
        },
        TokenKind::CommentContent | TokenKind::UnterminatedComment => {
            if mode == Mode::InComment {
                let c1 = comment_content_run(s1);
                assert(c1 <= l);
                lemma_comment_run_local(s1, s2, w as int);
                assert(comment_content_run(s2) == c1);
                assert(c1 < s1.len() && c1 < s2.len());
            }
        },
    }
}

/// Candidate selection is local: with the same window of bytes, the whole
/// candidate list selects the same winner.
proof fn lemma_best_local(
    s1: Seq<u8>,
    s2: Seq<u8>,
    mode: Mode,
    itop: int,
    cands: Seq<TokenKind>,
    kw: TokenKind,
    l: nat,
)
    requires
        match_len(s1, mode, itop, kw) == l,
        l >= 1,
        l + 2 <= s1.len(),
        l + 2 <= s2.len(),
        forall|i: int| 0 <= i < l + 2 ==> s1[i] == s2[i],
        forall|i: int| 0 <= i < cands.len() ==> match_len(s1, mode, itop, #[trigger] cands[i]) <= l,
    ensures
        best_match(s2, mode, itop, cands) == best_match(s1, mode, itop, cands),
    decreases cands.len(),
{
    if cands.len() > 0 {
        lemma_match_local(s1, s2, mode, itop, kw, l, cands[0]);
        assert(forall|i: int| 0 <= i < cands.skip(1).len() ==> cands.skip(1)[i] == cands[i + 1]);
        lemma_best_local(s1, s2, mode, itop, cands.skip(1), kw, l);
    }
}

/// Step locality: a step that emits a token of length `len` is decided by the
/// first `len + 2` bytes of the remaining input. Two buffers that agree there
/// step identically.
pub proof fn lemma_step_local(s1: Seq<u8>, s2: Seq<u8>, st: ScanState, cands: Seq<TokenKind>)
    requires
        spec_step(s1, st, cands) is Tok,
        spec_step(s1, st, cands)->len + 2 <= s1.len(),
        spec_step(s1, st, cands)->len + 2 <= s2.len(),
        forall|i: int|
            0 <= i < spec_step(s1, st, cands)->len + 2 ==> s1[i] == s2[i],
    ensures
        spec_step(s2, st, cands) == spec_step(s1, st, cands),
{
    let mode = mode_top(st);
    let itop = indent_top(st);
    let l = spec_step(s1, st, cands)->len;
    let kw = best_match(s1, mode, itop, cands)->Some_0.0;
    lemma_best_match_some(s1, mode, itop, cands);
    lemma_best_match_is_max(s1, mode, itop, cands);
    lemma_best_local(s1, s2, mode, itop, cands, kw, l);
}

/// Replay: a run of successful steps whose bytes (and two bytes of lookahead)
/// all lie before position `e` takes the very same steps on any buffer that
/// agrees on the first `e` bytes, reaching the same state after consuming the
/// same length, and emitting the same tokens.
pub proof fn lemma_replay(
    b1: Seq<u8>,
    b2: Seq<u8>,
    st: ScanState,
    cands: Seq<TokenKind>,
    n: nat,
    e: int,
)
    requires
        run_steps(b1, st, cands, n) is Some,
        run_steps(b1, st, cands, n)->Some_0.0 + 2 <= e,
        e <= b1.len(),
        e <= b2.len(),
        forall|i: int| 0 <= i < e ==> b1[i] == b2[i],
    ensures
        run_steps(b2, st, cands, n) == run_steps(b1, st, cands, n),
        tokens_prefix(b2, st, cands, n) == tokens_prefix(b1, st, cands, n),
    decreases n,
{
    if n > 0 {
        let l = spec_step(b1, st, cands)->len;
        let next = spec_step(b1, st, cands)->next;
        let rest = run_steps(b1.skip(l as int), next, cands, (n - 1) as nat);
        assert(rest is Some);
        assert(run_steps(b1, st, cands, n)->Some_0.0 == l + rest->Some_0.0);
        assert(l + 2 <= e);
        lemma_step_local(b1, b2, st, cands);
        assert forall|i: int| 0 <= i < e - l implies b1.skip(l as int)[i] == b2.skip(l as int)[i] by {
            assert(b1.skip(l as int)[i] == b1[i + l]);
            assert(b2.skip(l as int)[i] == b2[i + l]);
        }
        lemma_replay(b1.skip(l as int), b2.skip(l as int), next, cands, (n - 1) as nat, e - l);
    }
}

/// Incremental equivalence: let an edit change the buffer only at byte `e`
/// and beyond, and let a snapshot record the scanner state after `n` tokens
/// of the original scan, ending at least two bytes before `e`. Then scanning
/// the edited buffer from scratch produces exactly the reused tokens followed
/// by the tokens of the resumed scan — re-scanning incrementally from the
/// snapshot equals re-scanning from scratch.
pub proof fn lemma_incremental_equivalence(
    old_buf: Seq<u8>,
    new_buf: Seq<u8>,
    st0: ScanState,
    cands: Seq<TokenKind>,
    n: nat,
    e: int,
)
    requires
        run_steps(old_buf, st0, cands, n) is Some,
        run_steps(old_buf, st0, cands, n)->Some_0.0 + 2 <= e,
        e <= old_buf.len(),
        e <= new_buf.len(),
        forall|i: int| 0 <= i < e ==> old_buf[i] == new_buf[i],
    ensures
        tokens_from(new_buf, st0, cands) == tokens_prefix(old_buf, st0, cands, n) + tokens_from(
            new_buf.skip(run_steps(old_buf, st0, cands, n)->Some_0.0 as int),
            run_steps(old_buf, st0, cands, n)->Some_0.1,
            cands,
        ),
{
    lemma_replay(old_buf, new_buf, st0, cands, n, e);
    lemma_stream_decompose(new_buf, st0, cands, n);
}

/// A source edit: `removed` bytes starting at `start` were replaced by
/// `inserted` bytes. Bytes before `start` are unchanged.
pub struct SourceEdit {
    pub start: usize,
    pub removed: usize,
    pub inserted: usize,
}

/// Pick the snapshot to resume from after an edit: the latest recorded
/// position whose two-byte lookahead window still lies wholly before the
/// edit. `None` when no snapshot is safe and the buffer must be re-scanned
/// from the start.
pub fn restart_snapshot(positions: &Vec<usize>, edit: &SourceEdit) -> (r: Option<usize>)
    ensures
        r matches Some(i) ==> i < positions@.len() && positions@[i as int]
            + REVALIDATION_LOOKAHEAD <= edit.start && forall|j: int|
            0 <= j < positions@.len() && #[trigger] positions@[j] + REVALIDATION_LOOKAHEAD
                <= edit.start ==> positions@[j] <= positions@[i as int],
        r is None ==> forall|j: int|
            0 <= j < positions@.len() ==> #[trigger] positions@[j] + REVALIDATION_LOOKAHEAD
                > edit.start,
{
    let mut best: Option<usize> = None;
    let mut k: usize = 0;
    while k < positions.len()
        invariant
            k <= positions@.len(),
            best matches Some(i) ==> i < k && positions@[i as int] + REVALIDATION_LOOKAHEAD
                <= edit.start && forall|j: int|
                0 <= j < k && #[trigger] positions@[j] + REVALIDATION_LOOKAHEAD <= edit.start
                    ==> positions@[j] <= positions@[i as int],
            best is None ==> forall|j: int|
                0 <= j < k ==> #[trigger] positions@[j] + REVALIDATION_LOOKAHEAD > edit.start,
        decreases positions@.len() - k,
    {
        let p = positions[k];
        if edit.start >= REVALIDATION_LOOKAHEAD && p <= edit.start - REVALIDATION_LOOKAHEAD {
            match best {
                Some(i) => {
                    if positions[i] <= p {
                        best = Some(k);
                    }
                },
                None => {
                    best = Some(k);
                },
            }
        }
        k = k + 1;
    }
    best
}

} // verus!
