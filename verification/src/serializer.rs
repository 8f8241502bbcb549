//! The state serializer: encodes the mode stack and the indentation counters
//! into a fixed-capacity byte snapshot and back. Encoding and decoding are
//! exact inverses for every well-formed state; a state that would not fit the
//! capacity is rejected with `SerializationOverflow`, never truncated.

use vstd::prelude::*;
use crate::token::{Mode, SnapshotError};
use crate::state::{
    ScanState, ModeStack, IndentStack, state_wf, MAX_MODE_DEPTH, MAX_INDENT_DEPTH,
};
use crate::scanner::Scanner;

verus! {

/// The fixed snapshot capacity: enough for every well-formed state.
pub const SNAPSHOT_CAPACITY: usize = 128;

/// One byte standing for a mode.
pub open spec fn mode_tag(m: Mode) -> u8 {
    match m {
        Mode::Normal => 0,
        Mode::InString => 1,
        Mode::InComment => 2,
        Mode::Interp => 3,
    }
}

/// The mode a tag byte stands for; an out-of-range byte is not a valid tag
/// and makes the whole snapshot malformed.
pub open spec fn tag_mode(b: u8) -> Mode {
    if b == 1 {
        Mode::InString
    } else if b == 2 {
        Mode::InComment
    } else if b == 3 {
        Mode::Interp
    } else {
        Mode::Normal
    }
}

/// Number of bytes the encoding of `st` takes: one count byte and one tag
/// byte per mode, one count byte and two bytes per indentation column.
pub open spec fn encoded_len(st: ScanState) -> int {
    2 + st.modes.len() as int + 2 * st.indents.len() as int
}

/// The byte at offset `i` of the encoding of `st`.
pub open spec fn encoded_byte(st: ScanState, i: int) -> u8 {
    let n = st.modes.len() as int;
    if i == 0 {
        st.modes.len() as u8
    } else if i <= n {
        mode_tag(st.modes[i - 1])
    } else if i == n + 1 {
        st.indents.len() as u8
    } else {
        let j = i - n - 2;
        if j % 2 == 0 {
            (st.indents[j / 2] / 256) as u8
        } else {
            (st.indents[j / 2] % 256) as u8
        }
    }
}

/// The snapshot encoding of a scanner state.
pub open spec fn encode_state(st: ScanState) -> Seq<u8> {
    Seq::new(encoded_len(st) as nat, |i: int| encoded_byte(st, i))
}

/// The column encoded big-endian at offsets `i`, `i + 1` of `b`.
pub open spec fn word_at(b: Seq<u8>, i: int) -> int {
    (b[i] as int) * 256 + (b[i + 1] as int)
}

/// Whether `b` is a well-formed snapshot: the counts fit the depth limits and
/// the buffer exactly, the root mode is `Normal` and stands only at the
/// bottom, and the columns are positive and strictly increasing.
pub open spec fn decode_ok(b: Seq<u8>) -> bool {
    &&& b.len() >= 2
    &&& 1 <= b[0] <= MAX_MODE_DEPTH
    &&& b.len() >= 2 + b[0]
    &&& b[1] == 0
    &&& forall|i: int| 1 <= i < b[0] ==> 1 <= #[trigger] b[1 + i] <= 3
    &&& b[1 + b[0]] <= MAX_INDENT_DEPTH
    &&& b.len() == 2 + b[0] + 2 * b[1 + b[0]]
    &&& forall|j: int| 0 <= j < b[1 + b[0]] ==> #[trigger] word_at(b, 2 + b[0] + 2 * j) > 0
    &&& forall|j1: int, j2: int|
        0 <= j1 < j2 < b[1 + b[0]] ==> #[trigger] word_at(b, 2 + b[0] + 2 * j1)
            < #[trigger] word_at(b, 2 + b[0] + 2 * j2)
}

/// The state a well-formed snapshot stands for.
pub open spec fn decode_state(b: Seq<u8>) -> Option<ScanState> {
    if decode_ok(b) {
        Some(
            ScanState {
                modes: Seq::new(b[0] as nat, |i: int| tag_mode(b[1 + i])),
                indents: Seq::new(
                    b[1 + b[0]] as nat,
                    |j: int| word_at(b, 2 + b[0] + 2 * j) as u16,
                ),
            },
        )
    } else {
        None
    }
}

/// A decoded snapshot is always a well-formed state.
pub proof fn lemma_decode_wf(b: Seq<u8>)
    requires
        decode_state(b) is Some,
    ensures
        state_wf(decode_state(b)->Some_0),
{
    let st = decode_state(b)->Some_0;
    assert(st.modes[0] == tag_mode(b[1]));
    assert(forall|i: int| 1 <= i < st.modes.len() ==> 1 <= #[trigger] b[1 + i] <= 3);
}

/// Round trip: decoding the encoding of any well-formed state gives that
/// state back, exactly.
pub proof fn lemma_round_trip(st: ScanState)
    requires
        state_wf(st),
    ensures
        decode_state(encode_state(st)) == Some(st),
{
    let b = encode_state(st);
    let n = st.modes.len() as int;
    let m = st.indents.len() as int;
    assert(b[0] == n as u8);
    assert(b[1 + n] == m as u8);
    assert(b[1] == mode_tag(st.modes[0]));
    assert(forall|j: int|
        0 <= j < m ==> #[trigger] word_at(b, 2 + n + 2 * j) == st.indents[j]) by {
        assert forall|j: int| 0 <= j < m implies #[trigger] word_at(b, 2 + n + 2 * j)
            == st.indents[j] by {
            let i = 2 + n + 2 * j;
            assert((i - n - 2) == 2 * j);
            assert((2 * j) % 2 == 0 && (2 * j) / 2 == j);
            assert((i + 1 - n - 2) == 2 * j + 1);
            assert((2 * j + 1) % 2 == 1 && (2 * j + 1) / 2 == j);
            assert(b[i] == (st.indents[j] / 256) as u8);
            assert(b[i + 1] == (st.indents[j] % 256) as u8);
            assert((st.indents[j] / 256) as int * 256 + (st.indents[j] % 256) as int
                == st.indents[j] as int);
        }
    }
    assert(forall|i: int| 1 <= i < n ==> 1 <= #[trigger] b[1 + i] <= 3) by {
        assert forall|i: int| 1 <= i < n implies 1 <= #[trigger] b[1 + i] <= 3 by {
            assert(b[1 + i] == mode_tag(st.modes[i]));
            assert(st.modes[i] != Mode::Normal);
        }
    }
    assert(decode_ok(b));
    let dec = decode_state(b)->Some_0;
    assert(dec.modes =~= st.modes) by {
        assert forall|i: int| 0 <= i < n implies dec.modes[i] == st.modes[i] by {
            assert(dec.modes[i] == tag_mode(mode_tag(st.modes[i])));
        }
    }
    assert(dec.indents =~= st.indents);
}

impl Scanner {
    /// Snapshot the scanner state into at most `capacity` bytes. A state
    /// whose encoding would not fit is refused with `SerializationOverflow`
    /// rather than truncated.
    pub fn serialize(&self, capacity: usize) -> (r: Result<Vec<u8>, SnapshotError>)
        requires
            state_wf(self@),
        ensures
            encoded_len(self@) <= capacity ==> (r matches Ok(v) && v@ == encode_state(self@)),
            encoded_len(self@) > capacity ==> r == Err::<Vec<u8>, SnapshotError>(
                SnapshotError::SerializationOverflow,
            ),
    {
        let n = self.mode_depth();
        let m = self.indent_depth();
        if capacity < 2 || n > capacity - 2 || m > (capacity - 2 - n) / 2 {
            return Err(SnapshotError::SerializationOverflow);
        }
        let mut v: Vec<u8> = Vec::new();
        v.push(n as u8);
        let mut i: usize = 0;
        while i < n
            invariant
                n == self@.modes.len(),
                i <= n,
                n <= MAX_MODE_DEPTH,
                v@.len() == 1 + i,
                forall|k: int| 0 <= k < v@.len() ==> v@[k] == encoded_byte(self@, k),
            decreases n - i,
        {
            let tag: u8 = match self.mode_at(i) {
                Mode::Normal => 0,
                Mode::InString => 1,
                Mode::InComment => 2,
                Mode::Interp => 3,
            };
            v.push(tag);
            i = i + 1;
        }
        v.push(m as u8);
        let mut j: usize = 0;
        while j < m
            invariant
                n == self@.modes.len(),
                m == self@.indents.len(),
                j <= m,
                n <= MAX_MODE_DEPTH,
                m <= MAX_INDENT_DEPTH,
                v@.len() == 2 + n + 2 * j,
                forall|k: int| 0 <= k < v@.len() ==> v@[k] == encoded_byte(self@, k),
            decreases m - j,
        {
            let c = self.indent_at(j);
            proof {
                let i0 = 2 + n as int + 2 * (j as int);
                assert((i0 - n - 2) == 2 * (j as int));
                assert((2 * (j as int)) % 2 == 0 && (2 * (j as int)) / 2 == j as int);
                assert((i0 + 1 - n - 2) == 2 * (j as int) + 1);
                assert((2 * (j as int) + 1) % 2 == 1 && (2 * (j as int) + 1) / 2 == j as int);
            }
            v.push((c / 256) as u8);
            v.push((c % 256) as u8);
            j = j + 1;
        }
        proof {
            assert(v@ =~= encode_state(self@));
        }
        Ok(v)
    }

    /// Restore the scanner state from a snapshot. On a malformed snapshot the
    /// scanner is left unchanged and `Malformed` is returned; on success the
    /// scanner holds exactly the state the snapshot stands for.
    pub fn deserialize(&mut self, bytes: &Vec<u8>) -> (r: Result<(), SnapshotError>)
        ensures
            decode_state(bytes@) matches Some(st) ==> r == Ok::<(), SnapshotError>(())
                && final(self)@ == st && state_wf(final(self)@),
            decode_state(bytes@) is None ==> r == Err::<(), SnapshotError>(
                SnapshotError::Malformed,
            ) && final(self)@ == old(self)@,
    {
        if bytes.len() < 2 {
            return Err(SnapshotError::Malformed);
        }
        let n = bytes[0] as usize;
        if n < 1 || n > MAX_MODE_DEPTH || bytes.len() - 2 < n {
            return Err(SnapshotError::Malformed);
        }
        if bytes[1] != 0 {
            return Err(SnapshotError::Malformed);
        }
        let m = bytes[1 + n] as usize;
        if m > MAX_INDENT_DEPTH || bytes.len() - 2 - n != 2 * m {
            return Err(SnapshotError::Malformed);
        }
        let ghost b = bytes@;

        let mut modes = ModeStack::new();
        let mut i: usize = 1;
        while i < n
            invariant
                1 <= i <= n,
                n <= MAX_MODE_DEPTH,
                n <= bytes@.len() - 2,
                n == b[0] as int,
                b == bytes@,
                b[1] == 0,
                modes@.len() == i,
                forall|k: int| 0 <= k < i ==> modes@[k] == tag_mode(b[1 + k]),
                forall|k: int| 1 <= k < i ==> 1 <= #[trigger] b[1 + k] <= 3,
            decreases n - i,
        {
            let t = bytes[1 + i];
            let mo = if t == 1 {
                Mode::InString
            } else if t == 2 {
                Mode::InComment
            } else if t == 3 {
                Mode::Interp
            } else {
                return Err(SnapshotError::Malformed);
            };
            let pushed = modes.push(mo);
            proof {
                assert(pushed is Ok);
            }
            i = i + 1;
        }

        let mut indents = IndentStack::new();
        let mut j: usize = 0;
        let mut prev: u16 = 0;
        while j < m
            invariant
                j <= m,
                m <= MAX_INDENT_DEPTH,
                n == b[0] as int,
                m == b[1 + n] as int,
                b == bytes@,
                bytes@.len() == 2 + n + 2 * m,
                indents@.len() == j,
                forall|k: int| 0 <= k < j ==> indents@[k] == word_at(b, 2 + n + 2 * k) as u16,
                forall|k: int| 0 <= k < j ==> #[trigger] word_at(b, 2 + n + 2 * k) > 0,
                forall|k1: int, k2: int|
                    0 <= k1 < k2 < j ==> #[trigger] word_at(b, 2 + n + 2 * k1)
                        < #[trigger] word_at(b, 2 + n + 2 * k2),
                j > 0 ==> prev as int == word_at(b, 2 + n + 2 * (j - 1)),
                j == 0 ==> prev == 0,
            decreases m - j,
        {
            let hi = bytes[2 + n + 2 * j];
            let lo = bytes[2 + n + 2 * j + 1];
            let c: u16 = (hi as u16) * 256 + (lo as u16);
            proof {
                assert(c as int == word_at(b, 2 + n + 2 * (j as int)));
            }
            if c == 0 || (j > 0 && c <= prev) {
                return Err(SnapshotError::Malformed);
            }
            let pushed = indents.push(c);
            proof {
                assert(pushed is Ok);
                assert(c as int == word_at(b, 2 + n + 2 * (j as int)));
            }
            prev = c;
            j = j + 1;
        }

        proof {
            assert(decode_ok(b));
            let st = decode_state(b)->Some_0;
            assert(modes@ =~= st.modes);
            assert(indents@ =~= st.indents);
            lemma_decode_wf(b);
        }
        *self = Scanner::from_parts(modes, indents);
        Ok(())
    }
}

} // verus!
