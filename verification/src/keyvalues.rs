//! Key-value text documents: nested `"key" "value"` pairs and brace-enclosed
//! objects.  The grammar itself is read by the `keyvalues_serde` crate; this
//! module turns what it reads into a plain tree that the decoders work on.

use vstd::prelude::*;
use keyvalues_serde::parser::{Value, Vdf};

verus! {

/// One pair of a document: a key with either a text or an object of
/// further pairs.
#[derive(Debug)]
pub struct KvNode {
    /// The key exactly as the document spells it.
    pub key: String,
    /// The value where it is a text, `None` where it is an object.
    pub text: Option<String>,
    /// The pairs of the object in the order the reader hands them out
    /// (keys ascending, the values of one key in document order); empty
    /// where the value is a text.
    pub children: Vec<KvNode>,
}

/// `keyvalues_serde::parser::Vdf`: a document as the reader hands it out.
/// Nothing is known of its inside; it is only passed on to be copied.
#[verifier::external_type_specification]
#[verifier::external_body]
pub struct ExVdf<'text>(Vdf<'text>);

/// `keyvalues_serde::parser::parse`: reads `text` by the grammar with escape
/// sequences, `None` where the reader gives up.  Nothing is promised of the
/// outcome: besides the text, the reader looks at how much stack is left
/// and at a call budget that the whole process shares, so one text may be
/// read at one time and refused at another.
#[verifier::external_body]
fn parse_vdf(text: &str) -> (r: Option<Vdf<'static>>) {
    keyvalues_serde::parser::parse(text).ok().map(|p| p.into_vdf().into_owned())
}

/// Copies a parsed document of the reader into a [`KvNode`], pair by pair
/// (`Obj::into_vdfs` hands out the pairs of an object).
#[verifier::external_body]
fn node_from_vdf(vdf: Vdf<'static>) -> (r: KvNode) {
    let key = vdf.key.into_owned();
    match vdf.value {
        Value::Str(s) => KvNode { key, text: Some(s.into_owned()), children: Vec::new() },
        Value::Obj(obj) => KvNode {
            key,
            text: None,
            children: obj.into_vdfs().map(node_from_vdf).collect(),
        },
    }
}

/// Reads a key-value document, `None` where the reader refuses the text.
/// What comes back is decided by the reader alone; every decoder of
/// [`crate::metadata`] says what it makes of each possible outcome.
pub fn parse_document(text: &str) -> (r: Option<KvNode>) {
    match parse_vdf(text) {
        Some(vdf) => Some(node_from_vdf(vdf)),
        None => None,
    }
}

} // verus!
