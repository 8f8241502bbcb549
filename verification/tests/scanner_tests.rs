use veld_scanner::bridge::{restart_snapshot, SourceEdit, REVALIDATION_LOOKAHEAD};
use veld_scanner::cursor::Cursor;
use veld_scanner::node_types;
use veld_scanner::scanner::Scanner;
use veld_scanner::serializer::SNAPSHOT_CAPACITY;
use veld_scanner::token::{ScanFault, ScanResult, SnapshotError, TokenKind};

fn all_kinds() -> Vec<TokenKind> {
    vec![
        TokenKind::KwLet,
        TokenKind::Identifier,
        TokenKind::Number,
        TokenKind::Whitespace,
        TokenKind::Newline,
        TokenKind::Indent,
        TokenKind::Dedent,
        TokenKind::StringOpen,
        TokenKind::StringClose,
        TokenKind::StringContent,
        TokenKind::InterpOpen,
        TokenKind::InterpClose,
        TokenKind::CommentOpen,
        TokenKind::CommentClose,
        TokenKind::CommentContent,
        TokenKind::UnterminatedString,
        TokenKind::UnterminatedComment,
    ]
}

fn scan_all(buf: &[u8]) -> (Vec<(TokenKind, usize)>, ScanResult) {
    let mut sc = Scanner::new();
    let v: Vec<u8> = buf.to_vec();
    sc.scan_tokens(&v, 0, &all_kinds())
}

#[test]
fn progress_identifier_advances_cursor() {
    let buf: Vec<u8> = b"abc".to_vec();
    let mut sc = Scanner::new();
    let mut cur = Cursor::new(0);
    let r = sc.scan(&mut cur, &buf, &all_kinds());
    assert_eq!(
        r,
        ScanResult::Token {
            kind: TokenKind::Identifier,
            len: 3
        }
    );
    assert_eq!(cur.position(), 3);
}

#[test]
fn no_match_leaves_cursor_in_place() {
    let buf: Vec<u8> = b"!".to_vec();
    let mut sc = Scanner::new();
    let mut cur = Cursor::new(0);
    let r = sc.scan(&mut cur, &buf, &all_kinds());
    assert_eq!(r, ScanResult::NoMatch);
    assert_eq!(cur.position(), 0);
}

#[test]
fn no_match_at_end_of_input() {
    let buf: Vec<u8> = Vec::new();
    let mut sc = Scanner::new();
    let r = sc.scan_at(&buf, 0, &all_kinds());
    assert_eq!(r, ScanResult::NoMatch);
}

#[test]
fn maximal_munch_longer_identifier_beats_keyword() {
    // "lets": the keyword matches 3 bytes but the identifier matches 4, and
    // the longer match wins regardless of candidate order.
    let buf: Vec<u8> = b"lets".to_vec();
    let mut sc = Scanner::new();
    let cands = vec![TokenKind::KwLet, TokenKind::Identifier];
    let r = sc.scan_at(&buf, 0, &cands);
    assert_eq!(
        r,
        ScanResult::Token {
            kind: TokenKind::Identifier,
            len: 4
        }
    );
}

#[test]
fn equal_length_matches_take_candidate_priority() {
    // "let ": keyword and identifier both match exactly 3 bytes; whichever
    // is listed earlier in the candidate set wins.
    let buf: Vec<u8> = b"let ".to_vec();

    let mut sc = Scanner::new();
    let r = sc.scan_at(&buf, 0, &vec![TokenKind::KwLet, TokenKind::Identifier]);
    assert_eq!(
        r,
        ScanResult::Token {
            kind: TokenKind::KwLet,
            len: 3
        }
    );

    let mut sc2 = Scanner::new();
    let r2 = sc2.scan_at(&buf, 0, &vec![TokenKind::Identifier, TokenKind::KwLet]);
    assert_eq!(
        r2,
        ScanResult::Token {
            kind: TokenKind::Identifier,
            len: 3
        }
    );
}

#[test]
fn mode_balance_string_delimiters() {
    let buf: Vec<u8> = b"\"hi\"".to_vec();
    let mut sc = Scanner::new();
    assert_eq!(sc.mode_depth(), 1);
    let r1 = sc.scan_at(&buf, 0, &all_kinds());
    assert_eq!(
        r1,
        ScanResult::Token {
            kind: TokenKind::StringOpen,
            len: 1
        }
    );
    assert_eq!(sc.mode_depth(), 2);
    let r2 = sc.scan_at(&buf, 1, &all_kinds());
    assert_eq!(
        r2,
        ScanResult::Token {
            kind: TokenKind::StringContent,
            len: 2
        }
    );
    assert_eq!(sc.mode_depth(), 2);
    let r3 = sc.scan_at(&buf, 3, &all_kinds());
    assert_eq!(
        r3,
        ScanResult::Token {
            kind: TokenKind::StringClose,
            len: 1
        }
    );
    assert_eq!(sc.mode_depth(), 1);
}

#[test]
fn unterminated_string_detected() {
    // An opening quote with no closer: one unterminated-construct error token
    // spanning to end of input, and the mode stack back at root depth.
    let buf: Vec<u8> = b"\"abc".to_vec();
    let mut sc = Scanner::new();
    let (tokens, last) = sc.scan_tokens(&buf, 0, &all_kinds());
    assert_eq!(
        tokens,
        vec![
            (TokenKind::StringOpen, 1),
            (TokenKind::UnterminatedString, 3)
        ]
    );
    assert_eq!(last, ScanResult::NoMatch);
    assert_eq!(sc.mode_depth(), 1);
    let unterminated: Vec<&(TokenKind, usize)> = tokens
        .iter()
        .filter(|t| t.0 == TokenKind::UnterminatedString)
        .collect();
    assert_eq!(unterminated.len(), 1);
}

#[test]
fn unterminated_comment_detected() {
    let buf: Vec<u8> = b"#hi".to_vec();
    let (tokens, _) = scan_all(&buf);
    assert_eq!(
        tokens,
        vec![
            (TokenKind::CommentOpen, 1),
            (TokenKind::UnterminatedComment, 2)
        ]
    );
}

#[test]
fn comment_scans_and_closes() {
    let buf: Vec<u8> = b"#hi#x".to_vec();
    let (tokens, _) = scan_all(&buf);
    assert_eq!(
        tokens,
        vec![
            (TokenKind::CommentOpen, 1),
            (TokenKind::CommentContent, 2),
            (TokenKind::CommentClose, 1),
            (TokenKind::Identifier, 1)
        ]
    );
}

#[test]
fn interpolation_nests_and_returns() {
    let buf: Vec<u8> = b"\"a$(b)c\"".to_vec();
    let mut sc = Scanner::new();
    let (tokens, last) = sc.scan_tokens(&buf, 0, &all_kinds());
    assert_eq!(
        tokens,
        vec![
            (TokenKind::StringOpen, 1),
            (TokenKind::StringContent, 1),
            (TokenKind::InterpOpen, 2),
            (TokenKind::Identifier, 1),
            (TokenKind::InterpClose, 1),
            (TokenKind::StringContent, 1),
            (TokenKind::StringClose, 1)
        ]
    );
    assert_eq!(last, ScanResult::NoMatch);
    assert_eq!(sc.mode_depth(), 1);
}

#[test]
fn lone_dollar_is_string_content() {
    let buf: Vec<u8> = b"\"a$b\"".to_vec();
    let (tokens, _) = scan_all(&buf);
    assert_eq!(
        tokens,
        vec![
            (TokenKind::StringOpen, 1),
            (TokenKind::StringContent, 3),
            (TokenKind::StringClose, 1)
        ]
    );
}

#[test]
fn indentation_opens_and_closes_blocks() {
    let buf: Vec<u8> = b"a\n  b\nc".to_vec();
    let mut sc = Scanner::new();
    let (tokens, _) = sc.scan_tokens(&buf, 0, &all_kinds());
    assert_eq!(
        tokens,
        vec![
            (TokenKind::Identifier, 1),
            (TokenKind::Indent, 3),
            (TokenKind::Identifier, 1),
            (TokenKind::Dedent, 1),
            (TokenKind::Identifier, 1)
        ]
    );
    assert_eq!(sc.indent_depth(), 0);
}

#[test]
fn newline_at_same_column_is_plain() {
    let buf: Vec<u8> = b"a\nb".to_vec();
    let (tokens, _) = scan_all(&buf);
    assert_eq!(
        tokens,
        vec![
            (TokenKind::Identifier, 1),
            (TokenKind::Newline, 1),
            (TokenKind::Identifier, 1)
        ]
    );
}

#[test]
fn mode_overflow_on_deep_nesting() {
    // The depth limit is 32, the root included: 16 repetitions of a string
    // opening followed by an interpolation opening would need 33 modes, and
    // the last push reports `ModeOverflow` instead.
    let mut buf: Vec<u8> = Vec::new();
    for _ in 0..16 {
        buf.extend_from_slice(b"\"$(");
    }
    let mut sc = Scanner::new();
    let (_, last) = sc.scan_tokens(&buf, 0, &all_kinds());
    assert_eq!(
        last,
        ScanResult::Fault {
            fault: ScanFault::ModeOverflow
        }
    );
    assert_eq!(sc.mode_depth(), 32);
}

#[test]
fn indent_column_too_wide_for_a_snapshot_faults() {
    // A block opening at a column wider than a snapshot can record must be
    // refused as an overflow, not recorded truncated.
    let mut buf: Vec<u8> = vec![10u8];
    buf.extend(vec![32u8; 70000]);
    let mut sc = Scanner::new();
    let r = sc.scan_at(&buf, 0, &all_kinds());
    assert_eq!(
        r,
        ScanResult::Fault {
            fault: ScanFault::ModeOverflow
        }
    );
    assert_eq!(sc.indent_depth(), 0);
}

#[test]
fn snapshot_round_trip() {
    let buf: Vec<u8> = b"a\n  \"x$(".to_vec();
    let mut sc = Scanner::new();
    let (_, _) = sc.scan_tokens(&buf, 0, &all_kinds());
    assert_eq!(sc.mode_depth(), 3);
    assert_eq!(sc.indent_depth(), 1);
    let bytes = sc.serialize(SNAPSHOT_CAPACITY).unwrap();

    let mut restored = Scanner::new();
    assert_eq!(restored.deserialize(&bytes), Ok(()));
    assert_eq!(restored.mode_depth(), 3);
    assert_eq!(restored.indent_depth(), 1);
    let again = restored.serialize(SNAPSHOT_CAPACITY).unwrap();
    assert_eq!(bytes, again);

    // The restored scanner continues exactly as the original would.
    let tail: Vec<u8> = b"y)z\"".to_vec();
    let r1 = sc.scan_at(&tail, 0, &all_kinds());
    let r2 = restored.scan_at(&tail, 0, &all_kinds());
    assert_eq!(r1, r2);
}

#[test]
fn serialization_overflow_is_reported() {
    let buf: Vec<u8> = b"\"$(".to_vec();
    let mut sc = Scanner::new();
    let (_, _) = sc.scan_tokens(&buf, 0, &all_kinds());
    // The encoding needs five bytes here; a two-byte capacity must be refused
    // rather than truncated.
    assert_eq!(
        sc.serialize(2),
        Err(SnapshotError::SerializationOverflow)
    );
}

#[test]
fn malformed_snapshots_are_rejected() {
    let mut sc = Scanner::new();
    assert_eq!(
        sc.deserialize(&Vec::new()),
        Err(SnapshotError::Malformed)
    );
    // A mode count of one with an invalid root tag.
    assert_eq!(
        sc.deserialize(&vec![1u8, 9u8, 0u8]),
        Err(SnapshotError::Malformed)
    );
    // A valid header whose indentation columns are not increasing.
    assert_eq!(
        sc.deserialize(&vec![1u8, 0u8, 2u8, 0u8, 5u8, 0u8, 4u8]),
        Err(SnapshotError::Malformed)
    );
}

#[test]
fn empty_state_snapshot_is_two_bytes() {
    let sc = Scanner::new();
    let bytes = sc.serialize(SNAPSHOT_CAPACITY).unwrap();
    assert_eq!(bytes, vec![1u8, 0u8, 0u8]);
}

#[test]
fn restart_snapshot_picks_latest_safe_position() {
    let positions: Vec<usize> = vec![2, 3, 4, 6, 7];
    let edit = SourceEdit {
        start: 6,
        removed: 1,
        inserted: 1,
    };
    let r = restart_snapshot(&positions, &edit);
    assert_eq!(r, Some(2));
    assert_eq!(positions[2] + REVALIDATION_LOOKAHEAD, 6);

    let early = SourceEdit {
        start: 0,
        removed: 0,
        inserted: 1,
    };
    assert_eq!(restart_snapshot(&positions, &early), None);
}

#[test]
fn incremental_rescan_matches_scan_from_scratch() {
    let old_buf: Vec<u8> = b"aa \"bc\" dd".to_vec();
    let new_buf: Vec<u8> = b"aa \"Xc\" dd".to_vec();
    let edit = SourceEdit {
        start: 4,
        removed: 1,
        inserted: 1,
    };

    // Scan the old buffer from scratch, snapshotting after every token.
    let mut sc = Scanner::new();
    let mut tokens_old: Vec<(TokenKind, usize)> = Vec::new();
    let mut positions: Vec<usize> = Vec::new();
    let mut snaps: Vec<Vec<u8>> = Vec::new();
    let mut p = 0usize;
    loop {
        match sc.scan_at(&old_buf, p, &all_kinds()) {
            ScanResult::Token { kind, len } => {
                p += len;
                tokens_old.push((kind, len));
                positions.push(p);
                snaps.push(sc.serialize(SNAPSHOT_CAPACITY).unwrap());
            }
            _ => break,
        }
    }

    // Resume from the latest safe snapshot behind the edit.
    let idx = restart_snapshot(&positions, &edit).unwrap();
    let restart = positions[idx];
    assert!(restart + REVALIDATION_LOOKAHEAD <= edit.start);
    let mut resumed = Scanner::new();
    resumed.deserialize(&snaps[idx]).unwrap();
    let (tail, _) = resumed.scan_tokens(&new_buf, restart, &all_kinds());

    let mut incremental: Vec<(TokenKind, usize)> = tokens_old[..=idx].to_vec();
    incremental.extend_from_slice(&tail);

    // Scanning the edited buffer from scratch must give the same stream.
    let (from_scratch, _) = scan_all(&new_buf);
    assert_eq!(incremental, from_scratch);
}

#[test]
fn cursor_checkpoint_discipline() {
    let buf: Vec<u8> = b"ab cd".to_vec();
    let mut sc = Scanner::new();
    let mut cur = Cursor::new(0);
    sc.scan(&mut cur, &buf, &all_kinds());
    assert_eq!(cur.position(), 2);
    cur.mark();
    sc.scan(&mut cur, &buf, &all_kinds());
    assert_eq!(cur.position(), 3);
    // Reset returns to the checkpoint and discards it: a second reset has no
    // checkpoint left to go back to.
    assert!(cur.reset());
    assert_eq!(cur.position(), 2);
    assert!(!cur.reset());
    assert_eq!(cur.position(), 2);
}

#[test]
fn string_terminator_wins_inside_string() {
    // At the closing quote, with both the continuation token and the
    // terminator on offer, the terminator is the one that matches.
    let buf: Vec<u8> = b"\"x\"".to_vec();
    let mut sc = Scanner::new();
    sc.scan_at(&buf, 0, &all_kinds());
    sc.scan_at(&buf, 1, &all_kinds());
    let r = sc.scan_at(
        &buf,
        2,
        &vec![TokenKind::StringContent, TokenKind::StringClose],
    );
    assert_eq!(
        r,
        ScanResult::Token {
            kind: TokenKind::StringClose,
            len: 1
        }
    );
    assert_eq!(sc.mode_depth(), 1);
}

#[test]
fn candidate_set_restricts_what_is_emitted() {
    // The scanner never emits a kind outside the candidate set: digits are
    // present but only identifiers are acceptable, so nothing matches.
    let buf: Vec<u8> = b"42".to_vec();
    let mut sc = Scanner::new();
    let r = sc.scan_at(&buf, 0, &vec![TokenKind::Identifier]);
    assert_eq!(r, ScanResult::NoMatch);
    let r2 = sc.scan_at(&buf, 0, &vec![TokenKind::Number]);
    assert_eq!(
        r2,
        ScanResult::Token {
            kind: TokenKind::Number,
            len: 2
        }
    );
}

#[test]
fn node_types_lists_token_kinds() {
    let json = node_types();
    assert!(!json.is_empty());
    assert!(json.contains("identifier"));
    assert!(json.contains("string"));
}

#[test]
fn node_types_is_one_fixed_string() {
    // Every call returns the same static metadata blob, verbatim.
    assert_eq!(node_types(), node_types());
    assert_eq!(
        node_types(),
        "[\n  { \"type\": \"identifier\", \"named\": true },\n  { \"type\": \"number\", \"named\": true },\n  { \"type\": \"string\", \"named\": true },\n  { \"type\": \"interpolation\", \"named\": true },\n  { \"type\": \"comment\", \"named\": true }\n]\n"
    );
}
