//! The lexeme classifier: a pure function from the bytes at the cursor, the
//! mode in force and the current indentation column to the length each token
//! kind matches there. Zero means "no match"; a reported match is never
//! zero-width, so every emitted token advances the cursor.

use vstd::prelude::*;
use crate::token::{Mode, TokenKind};

verus! {

pub open spec fn is_ident_byte(b: u8) -> bool {
    (97 <= b && b <= 122) || (65 <= b && b <= 90) || b == 95
}

pub open spec fn is_digit_byte(b: u8) -> bool {
    48 <= b && b <= 57
}

pub open spec fn is_hspace_byte(b: u8) -> bool {
    b == 32 || b == 9
}

/// Length of the maximal run of identifier bytes at the head of `s`.
pub open spec fn ident_run(s: Seq<u8>) -> nat
    decreases s.len(),
{
    if s.len() == 0 || !is_ident_byte(s[0]) {
        0
    } else {
        1 + ident_run(s.skip(1))
    }
}

/// Length of the maximal run of digit bytes at the head of `s`.
pub open spec fn digit_run(s: Seq<u8>) -> nat
    decreases s.len(),
{
    if s.len() == 0 || !is_digit_byte(s[0]) {
        0
    } else {
        1 + digit_run(s.skip(1))
    }
}

/// Length of the maximal run of spaces and tabs at the head of `s`.
pub open spec fn hspace_run(s: Seq<u8>) -> nat
    decreases s.len(),
{
    if s.len() == 0 || !is_hspace_byte(s[0]) {
        0
    } else {
        1 + hspace_run(s.skip(1))
    }
}

/// Length of the maximal run of spaces (column width) at the head of `s`.
pub open spec fn space_run(s: Seq<u8>) -> nat
    decreases s.len(),
{
    if s.len() == 0 || s[0] != 32 {
        0
    } else {
        1 + space_run(s.skip(1))
    }
}

/// String content stops at a closing quote or at the two-byte interpolation
/// opener `$(`; a lone `$` not followed by `(` is ordinary content.
pub open spec fn string_content_stop(s: Seq<u8>) -> bool {
    s.len() == 0 || s[0] == 34 || (s[0] == 36 && s.len() >= 2 && s[1] == 40)
}

/// Length of the maximal run of string-content bytes at the head of `s`.
pub open spec fn string_content_run(s: Seq<u8>) -> nat
    decreases s.len(),
{
    if string_content_stop(s) {
        0
    } else {
        1 + string_content_run(s.skip(1))
    }
}

/// Length of the maximal run of comment-content bytes (anything but `#`) at
/// the head of `s`.
pub open spec fn comment_content_run(s: Seq<u8>) -> nat
    decreases s.len(),
{
    if s.len() == 0 || s[0] == 35 {
        0
    } else {
        1 + comment_content_run(s.skip(1))
    }
}

/// Length of a newline token at the head of `s`: the newline byte plus the
/// spaces that follow it. Zero when `s` does not start with a newline.
pub open spec fn newline_len(s: Seq<u8>) -> nat {
    if s.len() >= 1 && s[0] == 10 {
        1 + space_run(s.skip(1))
    } else {
        0
    }
}

/// Whether tokens of ordinary code are legal in `mode`.
pub open spec fn mode_is_code(mode: Mode) -> bool {
    mode == Mode::Normal || mode == Mode::Interp
}

/// The number of bytes token kind `k` matches at the head of `s`, given the
/// mode in force and the indentation column `itop`. Zero means "no match":
/// the classifier never reports a zero-width token.
///
/// Policy for an unterminated construct whose delimiter is the very last
/// byte of input (an opening `"` or `#` followed by nothing): the designated
/// unterminated token would have to cover zero bytes, and zero-width tokens
/// are forbidden so that scanning always makes progress. Progress wins: the
/// unterminated kinds match only content of length at least one, and at end
/// of input in a pushed mode with nothing after the delimiter the scanner
/// reports no match, leaving the mode stack as it stands rather than closing
/// the mode silently.
pub open spec fn match_len(s: Seq<u8>, mode: Mode, itop: int, k: TokenKind) -> nat {
    match k {
        TokenKind::Identifier => if mode_is_code(mode) {
            ident_run(s)
        } else {
            0
        },
        TokenKind::KwLet => if mode_is_code(mode) && s.len() >= 3 && s[0] == 108 && s[1] == 101
            && s[2] == 116 {
            3
        } else {
            0
        },
        TokenKind::Number => if mode_is_code(mode) {
            digit_run(s)
        } else {
            0
        },
        TokenKind::Whitespace => if mode_is_code(mode) {
            hspace_run(s)
        } else {
            0
        },
        TokenKind::Newline => if mode == Mode::Normal && newline_len(s) > 0 && newline_len(s) - 1
            == itop {
            newline_len(s)
        } else {
            0
        },
        TokenKind::Indent => if mode == Mode::Normal && newline_len(s) > 0 && newline_len(s) - 1
            > itop {
            newline_len(s)
        } else {
            0
        },
        TokenKind::Dedent => if mode == Mode::Normal && newline_len(s) > 0 && newline_len(s) - 1
            < itop {
            newline_len(s)
        } else {
            0
        },
        TokenKind::StringOpen => if mode_is_code(mode) && s.len() >= 1 && s[0] == 34 {
            1
        } else {
            0
        },
        TokenKind::CommentOpen => if mode_is_code(mode) && s.len() >= 1 && s[0] == 35 {
            1
        } else {
            0
        },
        TokenKind::InterpClose => if mode == Mode::Interp && s.len() >= 1 && s[0] == 41 {
            1
        } else {
            0
        },
        TokenKind::StringClose => if mode == Mode::InString && s.len() >= 1 && s[0] == 34 {
            1
        } else {
            0
        },
        TokenKind::InterpOpen => if mode == Mode::InString && s.len() >= 2 && s[0] == 36 && s[1]
            == 40 {
            2
        } else {
            0
        },
        TokenKind::StringContent => if mode == Mode::InString && 1 <= string_content_run(s)
            && string_content_run(s) < s.len() {
            string_content_run(s)
        } else {
            0
        },
        TokenKind::UnterminatedString => if mode == Mode::InString && 1 <= string_content_run(s)
            && string_content_run(s) == s.len() {
            string_content_run(s)
        } else {
            0
        },
        TokenKind::CommentClose => if mode == Mode::InComment && s.len() >= 1 && s[0] == 35 {
            1
        } else {
            0
        },
        TokenKind::CommentContent => if mode == Mode::InComment && 1 <= comment_content_run(s)
            && comment_content_run(s) < s.len() {
            comment_content_run(s)
        } else {
            0
        },
        TokenKind::UnterminatedComment => if mode == Mode::InComment && 1 <= comment_content_run(s)
            && comment_content_run(s) == s.len() {
            comment_content_run(s)
        } else {
            0
        },
    }
}

pub proof fn lemma_ident_run_le(s: Seq<u8>)
    ensures
        ident_run(s) <= s.len(),
    decreases s.len(),
{
    if s.len() > 0 && is_ident_byte(s[0]) {
        lemma_ident_run_le(s.skip(1));
    }
}

pub proof fn lemma_digit_run_le(s: Seq<u8>)
    ensures
        digit_run(s) <= s.len(),
    decreases s.len(),
{
    if s.len() > 0 && is_digit_byte(s[0]) {
        lemma_digit_run_le(s.skip(1));
    }
}

pub proof fn lemma_hspace_run_le(s: Seq<u8>)
    ensures
        hspace_run(s) <= s.len(),
    decreases s.len(),
{
    if s.len() > 0 && is_hspace_byte(s[0]) {
        lemma_hspace_run_le(s.skip(1));
    }
}

pub proof fn lemma_space_run_le(s: Seq<u8>)
    ensures
        space_run(s) <= s.len(),
    decreases s.len(),
{
    if s.len() > 0 && s[0] == 32 {
        lemma_space_run_le(s.skip(1));
    }
}

pub proof fn lemma_string_content_run_le(s: Seq<u8>)
    ensures
        string_content_run(s) <= s.len(),
    decreases s.len(),
{
    if !string_content_stop(s) {
        lemma_string_content_run_le(s.skip(1));
    }
}

pub proof fn lemma_comment_content_run_le(s: Seq<u8>)
    ensures
        comment_content_run(s) <= s.len(),
    decreases s.len(),
{
    if !(s.len() == 0 || s[0] == 35) {
        lemma_comment_content_run_le(s.skip(1));
    }
}

/// No token kind ever matches more bytes than remain in the input.
pub proof fn lemma_match_len_le(s: Seq<u8>, mode: Mode, itop: int, k: TokenKind)
    ensures
        match_len(s, mode, itop, k) <= s.len(),
{
    lemma_ident_run_le(s);
    lemma_digit_run_le(s);
    lemma_hspace_run_le(s);
    lemma_space_run_le(s.skip(1));
    lemma_string_content_run_le(s);
    lemma_comment_content_run_le(s);
    if s.len() >= 1 {
        assert(s.skip(1).len() == s.len() - 1);
    }
}

fn ident_byte(b: u8) -> (r: bool)
    ensures
        r == is_ident_byte(b),
{
    (97 <= b && b <= 122) || (65 <= b && b <= 90) || b == 95
}

fn ident_run_exec(buf: &Vec<u8>, pos: usize) -> (n: usize)
    requires
        pos <= buf@.len(),
    ensures
        n == ident_run(buf@.skip(pos as int)),
        pos + n <= buf@.len(),
{
    let mut i = pos;
    while i < buf.len() && ident_byte(buf[i])
        invariant
            pos <= i <= buf@.len(),
            ident_run(buf@.skip(pos as int)) == (i - pos) + ident_run(buf@.skip(i as int)),
        decreases buf@.len() - i,
    {
        proof {
            assert(buf@.skip(i as int)[0] == buf@[i as int]);
            assert(buf@.skip(i as int).skip(1) =~= buf@.skip(i + 1));
        }
        i = i + 1;
    }
    i - pos
}

fn digit_run_exec(buf: &Vec<u8>, pos: usize) -> (n: usize)
    requires
        pos <= buf@.len(),
    ensures
        n == digit_run(buf@.skip(pos as int)),
        pos + n <= buf@.len(),
{
    let mut i = pos;
    while i < buf.len() && 48 <= buf[i] && buf[i] <= 57
        invariant
            pos <= i <= buf@.len(),
            digit_run(buf@.skip(pos as int)) == (i - pos) + digit_run(buf@.skip(i as int)),
        decreases buf@.len() - i,
    {
        proof {
            assert(buf@.skip(i as int)[0] == buf@[i as int]);
            assert(buf@.skip(i as int).skip(1) =~= buf@.skip(i + 1));
        }
        i = i + 1;
    }
    i - pos
}

fn hspace_run_exec(buf: &Vec<u8>, pos: usize) -> (n: usize)
    requires
        pos <= buf@.len(),
    ensures
        n == hspace_run(buf@.skip(pos as int)),
        pos + n <= buf@.len(),
{
    let mut i = pos;
    while i < buf.len() && (buf[i] == 32 || buf[i] == 9)
        invariant
            pos <= i <= buf@.len(),
            hspace_run(buf@.skip(pos as int)) == (i - pos) + hspace_run(buf@.skip(i as int)),
        decreases buf@.len() - i,
    {
        proof {
            assert(buf@.skip(i as int)[0] == buf@[i as int]);
            assert(buf@.skip(i as int).skip(1) =~= buf@.skip(i + 1));
        }
        i = i + 1;
    }
    i - pos
}

fn space_run_exec(buf: &Vec<u8>, pos: usize) -> (n: usize)
    requires
        pos <= buf@.len(),
    ensures
        n == space_run(buf@.skip(pos as int)),
        pos + n <= buf@.len(),
{
    let mut i = pos;
    while i < buf.len() && buf[i] == 32
        invariant
            pos <= i <= buf@.len(),
            space_run(buf@.skip(pos as int)) == (i - pos) + space_run(buf@.skip(i as int)),
        decreases buf@.len() - i,
    {
        proof {
            assert(buf@.skip(i as int)[0] == buf@[i as int]);
            assert(buf@.skip(i as int).skip(1) =~= buf@.skip(i + 1));
        }
        i = i + 1;
    }
    i - pos
}

fn string_content_run_exec(buf: &Vec<u8>, pos: usize) -> (n: usize)
    requires
        pos <= buf@.len(),
    ensures
        n == string_content_run(buf@.skip(pos as int)),
        pos + n <= buf@.len(),
{
    let mut i = pos;
    while i < buf.len() && buf[i] != 34 && !(buf[i] == 36 && i + 1 < buf.len() && buf[i + 1] == 40)
        invariant
            pos <= i <= buf@.len(),
            string_content_run(buf@.skip(pos as int)) == (i - pos) + string_content_run(
                buf@.skip(i as int),
            ),
        decreases buf@.len() - i,
    {
        proof {
            assert(buf@.skip(i as int)[0] == buf@[i as int]);
            if i + 1 < buf@.len() {
                assert(buf@.skip(i as int)[1] == buf@[i + 1]);
            }
            assert(!string_content_stop(buf@.skip(i as int)));
            assert(buf@.skip(i as int).skip(1) =~= buf@.skip(i + 1));
        }
        i = i + 1;
    }
    proof {
        if i < buf@.len() {
            assert(buf@.skip(i as int)[0] == buf@[i as int]);
            if i + 1 < buf@.len() {
                assert(buf@.skip(i as int)[1] == buf@[i + 1]);
            }
            assert(string_content_stop(buf@.skip(i as int)));
        }
    }
    i - pos
}

fn comment_content_run_exec(buf: &Vec<u8>, pos: usize) -> (n: usize)
    requires
        pos <= buf@.len(),
    ensures
        n == comment_content_run(buf@.skip(pos as int)),
        pos + n <= buf@.len(),
{
    let mut i = pos;
    while i < buf.len() && buf[i] != 35
        invariant
            pos <= i <= buf@.len(),
            comment_content_run(buf@.skip(pos as int)) == (i - pos) + comment_content_run(
                buf@.skip(i as int),
            ),
        decreases buf@.len() - i,
    {
        proof {
            assert(buf@.skip(i as int)[0] == buf@[i as int]);
            assert(buf@.skip(i as int).skip(1) =~= buf@.skip(i + 1));
        }
        i = i + 1;
    }
    i - pos
}

/// Classify one candidate kind at `pos`: the number of bytes it matches
/// there, exactly as `match_len` says; zero when it does not match.
pub fn classify(buf: &Vec<u8>, pos: usize, mode: Mode, itop: u16, kind: TokenKind) -> (n: usize)
    requires
        pos <= buf@.len(),
    ensures
        n == match_len(buf@.skip(pos as int), mode, itop as int, kind),
        pos + n <= buf@.len(),
{
    let ghost s = buf@.skip(pos as int);
    let is_code = match mode {
        Mode::Normal => true,
        Mode::Interp => true,
        _ => false,
    };
    match kind {
        TokenKind::Identifier => if is_code {
            ident_run_exec(buf, pos)
        } else {
            0
        },
        TokenKind::KwLet => {
            if is_code && buf.len() - pos >= 3 && buf[pos] == 108 && buf[pos + 1] == 101 && buf[pos
                + 2] == 116 {
                proof {
                    assert(s[0] == buf@[pos as int]);
                    assert(s[1] == buf@[pos + 1]);
                    assert(s[2] == buf@[pos + 2]);
                }
                3
            } else {
                proof {
                    if s.len() >= 3 {
                        assert(s[0] == buf@[pos as int]);
                        assert(s[1] == buf@[pos + 1]);
                        assert(s[2] == buf@[pos + 2]);
                    }
                }
                0
            }
        },
        TokenKind::Number => if is_code {
            digit_run_exec(buf, pos)
        } else {
            0
        },
        TokenKind::Whitespace => if is_code {
            hspace_run_exec(buf, pos)
        } else {
            0
        },
        TokenKind::Newline | TokenKind::Indent | TokenKind::Dedent => {
            let in_normal = match mode {
                Mode::Normal => true,
                _ => false,
            };
            if in_normal && pos < buf.len() && buf[pos] == 10 {
                proof {
                    assert(s[0] == buf@[pos as int]);
                    assert(s.skip(1) =~= buf@.skip(pos + 1));
                }
                let col = space_run_exec(buf, pos + 1);
                proof {
                    assert(newline_len(s) == 1 + col);
                }
                let hit = match kind {
                    TokenKind::Newline => col == itop as usize,
                    TokenKind::Indent => col > itop as usize,
                    _ => col < itop as usize,
                };
                if hit {
                    1 + col
                } else {
                    0
                }
            } else {
                proof {
                    if s.len() >= 1 {
                        assert(s[0] == buf@[pos as int]);
                    }
                }
                0
            }
        },
        TokenKind::StringOpen => if is_code && pos < buf.len() && buf[pos] == 34 {
            proof {
                assert(s[0] == buf@[pos as int]);
            }
            1
        } else {
            proof {
                if s.len() >= 1 {
                    assert(s[0] == buf@[pos as int]);
                }
            }
            0
        },
        TokenKind::CommentOpen => if is_code && pos < buf.len() && buf[pos] == 35 {
            proof {
                assert(s[0] == buf@[pos as int]);
            }
            1
        } else {
            proof {
                if s.len() >= 1 {
                    assert(s[0] == buf@[pos as int]);
                }
            }
            0
        },
        TokenKind::InterpClose => {
            let in_interp = match mode {
                Mode::Interp => true,
                _ => false,
            };
            if in_interp && pos < buf.len() && buf[pos] == 41 {
                proof {
                    assert(s[0] == buf@[pos as int]);
                }
                1
            } else {
                proof {
                    if s.len() >= 1 {
                        assert(s[0] == buf@[pos as int]);
                    }
                }
                0
            }
        },
        TokenKind::StringClose => {
            let in_string = match mode {
                Mode::InString => true,
                _ => false,
            };
            if in_string && pos < buf.len() && buf[pos] == 34 {
                proof {
                    assert(s[0] == buf@[pos as int]);
                }
                1
            } else {
                proof {
                    if s.len() >= 1 {
                        assert(s[0] == buf@[pos as int]);
                    }
                }
                0
            }
        },
        TokenKind::InterpOpen => {
            let in_string = match mode {
                Mode::InString => true,
                _ => false,
            };
            if in_string && buf.len() - pos >= 2 && buf[pos] == 36 && buf[pos + 1] == 40 {
                proof {
                    assert(s[0] == buf@[pos as int]);
                    assert(s[1] == buf@[pos + 1]);
                }
                2
            } else {
                proof {
                    if s.len() >= 2 {
                        assert(s[0] == buf@[pos as int]);
                        assert(s[1] == buf@[pos + 1]);
                    }
                }
                0
            }
        },
        TokenKind::StringContent | TokenKind::UnterminatedString => {
            let in_string = match mode {
                Mode::InString => true,
                _ => false,
            };
            if in_string {
                let run = string_content_run_exec(buf, pos);
                let to_eof = run == buf.len() - pos;
                let hit = match kind {
                    TokenKind::StringContent => run >= 1 && !to_eof,
                    _ => run >= 1 && to_eof,
                };
                if hit {
                    run
                } else {
                    0
                }
            } else {
                0
            }
        },
        TokenKind::CommentClose => {
            let in_comment = match mode {
                Mode::InComment => true,
                _ => false,
            };
            if in_comment && pos < buf.len() && buf[pos] == 35 {
                proof {
                    assert(s[0] == buf@[pos as int]);
                }
                1
            } else {
                proof {
                    if s.len() >= 1 {
                        assert(s[0] == buf@[pos as int]);
                    }
                }
                0
            }
        },
        TokenKind::CommentContent | TokenKind::UnterminatedComment => {
            let in_comment = match mode {
                Mode::InComment => true,
                _ => false,
            };
            if in_comment {
                let run = comment_content_run_exec(buf, pos);
                let to_eof = run == buf.len() - pos;
                let hit = match kind {
                    TokenKind::CommentContent => run >= 1 && !to_eof,
                    _ => run >= 1 && to_eof,
                };
                if hit {
                    run
                } else {
                    0
                }
            } else {
                0
            }
        },
    }
}

} // verus!
