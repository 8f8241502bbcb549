//! Token kinds, lexical modes, and the result and fault types of the scanner.

use vstd::prelude::*;

verus! {

/// A lexical mode: the context that decides which tokens are legal next.
/// `Normal` is the root mode and is always at the bottom of the mode stack.
#[derive(Clone, Copy, PartialEq, Eq, Structural, Debug)]
pub enum Mode {
    /// Ordinary code at the top level.
    Normal,
    /// Between the opening and closing delimiter of a string literal.
    InString,
    /// Between the opening and closing delimiter of a block comment.
    InComment,
    /// Inside a `$(`...`)` interpolation within a string literal.
    Interp,
}

/// The closed set of token kinds the scanner can recognize.
#[derive(Clone, Copy, PartialEq, Eq, Structural, Debug)]
pub enum TokenKind {
    /// A run of ASCII letters or underscores.
    Identifier,
    /// The keyword `let` (overlaps with `Identifier` on purpose: tie-breaking
    /// between the two is decided by candidate priority and match length).
    KwLet,
    /// A run of ASCII digits.
    Number,
    /// A run of spaces or horizontal tabs.
    Whitespace,
    /// A newline plus following spaces whose column equals the current
    /// indentation level.
    Newline,
    /// A newline plus following spaces whose column opens a deeper block.
    Indent,
    /// A newline plus following spaces whose column closes one or more blocks.
    Dedent,
    /// `"` in code: enters `InString`.
    StringOpen,
    /// `"` inside a string: leaves `InString`.
    StringClose,
    /// A maximal run of string bytes up to a delimiter or interpolation.
    StringContent,
    /// `$(` inside a string: enters `Interp`.
    InterpOpen,
    /// `)` inside an interpolation: leaves `Interp`.
    InterpClose,
    /// `#` in code: enters `InComment`.
    CommentOpen,
    /// `#` inside a comment: leaves `InComment`.
    CommentClose,
    /// A maximal run of comment bytes before the closing `#`.
    CommentContent,
    /// Error token: string content running to end of input with no closer.
    UnterminatedString,
    /// Error token: comment content running to end of input with no closer.
    UnterminatedComment,
}

/// Internal-consistency faults. These indicate a scanner or grammar bug (or an
/// exceeded nesting limit), never a user syntax error, and are kept distinct
/// from an ordinary failure to match.
#[derive(Clone, Copy, PartialEq, Eq, Structural, Debug)]
pub enum ScanFault {
    /// A mode or indentation push would exceed the configured depth limit.
    ModeOverflow,
    /// A pop was requested while only the root mode remained.
    ModeUnderflow,
}

/// The outcome of one `scan` call.
#[derive(Clone, Copy, PartialEq, Eq, Structural, Debug)]
pub enum ScanResult {
    /// A token was recognized; the cursor advances by `len` bytes.
    Token { kind: TokenKind, len: usize },
    /// No candidate token matches at the cursor; the parser treats this as a
    /// syntax error at that position.
    NoMatch,
    /// An internal-consistency fault; scanning must halt.
    Fault { fault: ScanFault },
}

/// Errors of the state serializer.
#[derive(Clone, Copy, PartialEq, Eq, Structural, Debug)]
pub enum SnapshotError {
    /// The encoded state would exceed the fixed snapshot capacity; the state
    /// is never silently truncated.
    SerializationOverflow,
    /// The bytes handed to `deserialize` do not encode a well-formed state.
    Malformed,
}

} // verus!
