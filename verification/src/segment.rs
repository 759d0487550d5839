//! The segment-value decoder.
//!
//! A configuration field holding a segment comes in exactly two shapes: a
//! bare string (the text, with no style), or a record with the two mandatory
//! keys `value` (the text) and `style` (a style specification handed to the
//! style folder).  Any other shape, any unknown or duplicate key, and any
//! missing mandatory key is a hard decode error; a malformed style string is
//! not (it softly folds to no style).

use vstd::prelude::*;

use crate::style::StyleAttributes;
use crate::style::spec_fold;
use crate::style::fold;
use crate::text::str_eq;

verus! {

/// A configuration node, as far as this decoder distinguishes shapes: a
/// string, a record of key/node pairs in written order, or any other kind
/// of node.
#[derive(Debug, PartialEq, Eq)]
pub enum ConfigNode {
    Text(String),
    Record(Vec<(String, ConfigNode)>),
    Other,
}

/// Why a segment value failed to decode; each variant names the offending
/// key where one exists.
#[derive(Debug, Clone, PartialEq, Eq)]
pub enum DecodeError {
    UnknownField(String),
    DuplicateField(String),
    MissingField(String),
    InvalidShape,
}

/// A decoded segment: its text and, when the record shape supplied one, the
/// folded style.  `style == None` means "inherit the default appearance";
/// an explicit no-op style is `Some` of the empty attributes.
#[derive(Debug, Clone, PartialEq, Eq)]
pub struct SegmentValue {
    pub text: String,
    pub style: Option<StyleAttributes>,
}

/// The outcome a decode must have: the decoded text and style, or the
/// precise error, with field names as character sequences.
pub enum DecodeOutcome {
    Success(Seq<char>, Option<StyleAttributes>),
    UnknownField(Seq<char>),
    DuplicateField(Seq<char>),
    MissingField(Seq<char>),
    InvalidShape,
}

/// The text of an optional accumulated `value` field.
pub open spec fn opt_text(v: Option<String>) -> Option<Seq<char>> {
    match v {
        Some(s) => Some(s@),
        None => None,
    }
}

/// Walks the entries of a record shape in written order, accumulating the
/// two mandatory fields.  The first unknown key, duplicate key, or
/// non-string field value decides the outcome; after the last entry a
/// missing `value` is reported before a missing `style`.
pub open spec fn walk_record(
    entries: Seq<(String, ConfigNode)>,
    i: int,
    value: Option<Seq<char>>,
    style: Option<Option<StyleAttributes>>,
) -> DecodeOutcome
    decreases entries.len() - i,
{
    if i < 0 || i >= entries.len() {
        match value {
            None => DecodeOutcome::MissingField("value"@),
            Some(v) => match style {
                None => DecodeOutcome::MissingField("style"@),
                Some(s) => DecodeOutcome::Success(v, s),
            },
        }
    } else {
        let k = entries[i].0;
        if k@ == "value"@ {
            if value is Some {
                DecodeOutcome::DuplicateField("value"@)
            } else {
                match entries[i].1 {
                    ConfigNode::Text(s) => walk_record(entries, i + 1, Some(s@), style),
                    _ => DecodeOutcome::InvalidShape,
                }
            }
        } else if k@ == "style"@ {
            if style is Some {
                DecodeOutcome::DuplicateField("style"@)
            } else {
                match entries[i].1 {
                    ConfigNode::Text(s) => walk_record(
                        entries,
                        i + 1,
                        value,
                        Some(spec_fold(s@)),
                    ),
                    _ => DecodeOutcome::InvalidShape,
                }
            }
        } else {
            DecodeOutcome::UnknownField(k@)
        }
    }
}

/// What `decode` must produce for a node: a bare string is the text with no
/// style; a record is walked entry by entry; any other shape is invalid.
pub open spec fn decode_spec(node: ConfigNode) -> DecodeOutcome {
    match node {
        ConfigNode::Text(s) => DecodeOutcome::Success(s@, None),
        ConfigNode::Record(entries) => walk_record(entries@, 0, None, None),
        ConfigNode::Other => DecodeOutcome::InvalidShape,
    }
}

/// Whether an executable decode result carries exactly a given outcome.
pub open spec fn outcome_matches(o: DecodeOutcome, r: Result<SegmentValue, DecodeError>) -> bool {
    match o {
        DecodeOutcome::Success(t, st) => r matches Ok(sv) && sv.text@ == t && sv.style == st,
        DecodeOutcome::UnknownField(f) => r matches Err(DecodeError::UnknownField(g)) && g@ == f,
        DecodeOutcome::DuplicateField(f) => r matches Err(DecodeError::DuplicateField(g)) && g@
            == f,
        DecodeOutcome::MissingField(f) => r matches Err(DecodeError::MissingField(g)) && g@ == f,
        DecodeOutcome::InvalidShape => r matches Err(DecodeError::InvalidShape),
    }
}

/// Decodes a segment value from a configuration node: a bare string becomes
/// unstyled text, a record with the mandatory `value` and `style` keys
/// becomes text with the folded style, and every other shape, unknown key,
/// duplicate key or missing key is a distinct hard error.
pub fn decode(node: &ConfigNode) -> (r: Result<SegmentValue, DecodeError>)
    ensures
        outcome_matches(decode_spec(*node), r),
{
    match node {
        ConfigNode::Text(s) => Ok(SegmentValue { text: s.clone(), style: None }),
        ConfigNode::Other => Err(DecodeError::InvalidShape),
        ConfigNode::Record(entries) => {
            let mut value: Option<String> = None;
            let mut style: Option<Option<StyleAttributes>> = None;
            let mut i: usize = 0;
            while i < entries.len()
                invariant
                    i <= entries@.len(),
                    walk_record(entries@, i as int, opt_text(value), style) == walk_record(
                        entries@,
                        0,
                        None,
                        None,
                    ),
                    decode_spec(*node) == walk_record(entries@, 0, None, None),
                decreases entries@.len() - i,
            {
                let k = &entries[i].0;
                let n = &entries[i].1;
                if str_eq(k.as_str(), "value") {
                    if value.is_some() {
                        return Err(DecodeError::DuplicateField(String::from_str("value")));
                    }
                    match n {
                        ConfigNode::Text(s) => {
                            value = Some(s.clone());
                            i = i + 1;
                        },
                        _ => {
                            return Err(DecodeError::InvalidShape);
                        },
                    }
                } else if str_eq(k.as_str(), "style") {
                    if style.is_some() {
                        return Err(DecodeError::DuplicateField(String::from_str("style")));
                    }
                    match n {
                        ConfigNode::Text(s) => {
                            style = Some(fold(s.as_str()));
                            i = i + 1;
                        },
                        _ => {
                            return Err(DecodeError::InvalidShape);
                        },
                    }
                } else {
                    return Err(DecodeError::UnknownField(k.clone()));
                }
            }
            match value {
                None => Err(DecodeError::MissingField(String::from_str("value"))),
                Some(v) => match style {
                    None => Err(DecodeError::MissingField(String::from_str("style"))),
                    Some(st) => Ok(SegmentValue { text: v, style: st }),
                },
            }
        },
    }
}

} // verus!
