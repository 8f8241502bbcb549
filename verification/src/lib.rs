//! Scanner subsystem for the Veld grammar: a stateful tokenizer for the
//! context-sensitive parts of the language (string literals, interpolation,
//! block comments, indentation), with serializable state so a parser can
//! resume scanning at an arbitrary byte offset after an edit.

use vstd::prelude::*;

pub mod token;
pub mod state;
pub mod classifier;
pub mod cursor;
pub mod scanner;
pub mod serializer;
pub mod stream;
pub mod bridge;

verus! {

/// Static node-type metadata for the Veld grammar, as a read-only JSON blob.
/// Every call returns the same static string, verbatim.
pub fn node_types() -> (r: &'static str)
    ensures
        r@ == ("[\n  { \"type\": \"identifier\", \"named\": true },\n  { \"type\": \"number\", \"named\": true },\n  { \"type\": \"string\", \"named\": true },\n  { \"type\": \"interpolation\", \"named\": true },\n  { \"type\": \"comment\", \"named\": true }\n]\n")@,
        r@.len() > 0,
{
    proof {
        reveal_strlit("[\n  { \"type\": \"identifier\", \"named\": true },\n  { \"type\": \"number\", \"named\": true },\n  { \"type\": \"string\", \"named\": true },\n  { \"type\": \"interpolation\", \"named\": true },\n  { \"type\": \"comment\", \"named\": true }\n]\n");
    }
    "[\n  { \"type\": \"identifier\", \"named\": true },\n  { \"type\": \"number\", \"named\": true },\n  { \"type\": \"string\", \"named\": true },\n  { \"type\": \"interpolation\", \"named\": true },\n  { \"type\": \"comment\", \"named\": true }\n]\n"
}

} // verus!
