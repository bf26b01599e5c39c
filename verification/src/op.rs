use vstd::prelude::*;
use vstd::string::*;
use crate::attributes::AttributesMap;

verus! {

/// An error related to deltas.
#[derive(Debug)]
pub struct Error {
    message: String,
}

impl Error {
    /// The characters of the error message.
    pub closed spec fn spec_message(self) -> Seq<char> {
        self.message@
    }

    pub fn new(message: String) -> (e: Error)
        ensures
            e.spec_message() == message@,
    {
        Error { message }
    }

    pub fn message(&self) -> (m: &str)
        ensures
            m@ == self.spec_message(),
    {
        self.message.as_str()
    }
}

#[verifier::external_type_specification]
#[verifier::external_body]
pub struct ExValue(serde_json::Value);

/// Relies on the derived `Clone` of `serde_json::Value`: cloning makes a
/// structural copy equal to the original.
pub assume_specification[ <serde_json::Value as Clone>::clone ](v: &serde_json::Value) -> (r:
    serde_json::Value)
    ensures
        r == *v,
;

/// The payload of an insert operation: either text, or an opaque
/// structured value (an embedded object) carried through unread.
#[derive(Debug, Clone, PartialEq)]
pub enum Content {
    Text(String),
    Embed(serde_json::Value),
}

/// The kinds of operation that deltas support.
#[derive(Debug, Clone, PartialEq)]
pub enum OpType {
    Insert(Content),
    Retain(usize),
    Delete(usize),
}

/// An operation in a delta.
///
/// Operations materialize a change to be applied to a state and result
/// in a new state.
#[derive(Debug, Clone, PartialEq)]
pub struct Op {
    pub(crate) kind: OpType,
    pub(crate) attributes: AttributesMap,
}

/// Attributes may only accompany an insert whose payload is text; a
/// non-empty attribute map on an embed is rejected.
pub open spec fn insert_conflict(object: Content, attributes: Option<AttributesMap>) -> bool {
    (object matches Content::Embed(_)) && (match attributes {
        Some(a) => a@.len() > 0,
        None => false,
    })
}

impl Op {
    /// The operation's kind.
    pub open(crate) spec fn spec_kind(self) -> OpType {
        self.kind
    }

    /// The stored attribute map (possibly empty).
    pub open(crate) spec fn attrs_model(self) -> AttributesMap {
        self.attributes
    }

    /// Whether this is an insert of text.
    pub open(crate) spec fn is_text_insert_spec(self) -> bool {
        self.kind matches OpType::Insert(Content::Text(_))
    }

    /// The characters of a text insert; empty for every other operation.
    pub open(crate) spec fn text_model(self) -> Seq<char> {
        match self.kind {
            OpType::Insert(Content::Text(s)) => s@,
            _ => Seq::empty(),
        }
    }

    /// The span length of the operation: the character count of inserted
    /// text, 1 for an embed, the stored length for retain and delete.
    pub open(crate) spec fn spec_len(self) -> nat {
        match self.kind {
            OpType::Insert(Content::Text(s)) => s@.len(),
            OpType::Insert(Content::Embed(_)) => 1,
            OpType::Retain(n) => n as nat,
            OpType::Delete(n) => n as nat,
        }
    }

    pub fn insert(object: Content, attributes: Option<AttributesMap>) -> (op: Op)
        requires
            !insert_conflict(object, attributes),
        ensures
            op.spec_kind() == OpType::Insert(object),
            match attributes {
                Some(a) => op.attrs_model() == a,
                None => op.attrs_model()@.len() == 0,
            },
    {
        Op {
            kind: OpType::Insert(object),
            attributes: match attributes {
                Some(a) => a,
                None => AttributesMap::new(),
            },
        }
    }

    pub fn try_insert(object: Content, attributes: Option<AttributesMap>) -> (r: Result<Op, Error>)
        ensures
            match r {
                Ok(op) => !insert_conflict(object, attributes) && op.spec_kind()
                    == OpType::Insert(object) && (match attributes {
                    Some(a) => op.attrs_model() == a,
                    None => op.attrs_model()@.len() == 0,
                }),
                Err(_) => insert_conflict(object, attributes),
            },
    {
        let conflict = match (&object, &attributes) {
            (Content::Embed(_), Some(a)) => !a.is_empty(),
            _ => false,
        };
        if conflict {
            return Err(
                Error::new(
                    String::from_str(
                        "Insert error: cannot combine attributes with an inserted value other than a string.",
                    ),
                ),
            );
        }
        Ok(
            Op {
                kind: OpType::Insert(object),
                attributes: match attributes {
                    Some(a) => a,
                    None => AttributesMap::new(),
                },
            },
        )
    }

    pub fn retain(length: usize, attributes: Option<AttributesMap>) -> (op: Op)
        requires
            length > 0,
        ensures
            op.spec_kind() == OpType::Retain(length),
            match attributes {
                Some(a) => op.attrs_model() == a,
                None => op.attrs_model()@.len() == 0,
            },
    {
        Op {
            kind: OpType::Retain(length),
            attributes: match attributes {
                Some(a) => a,
                None => AttributesMap::new(),
            },
        }
    }

    pub fn delete(length: usize) -> (op: Op)
        requires
            length > 0,
        ensures
            op.spec_kind() == OpType::Delete(length),
            op.attrs_model()@.len() == 0,
    {
        Op { kind: OpType::Delete(length), attributes: AttributesMap::new() }
    }

    pub fn retain_until_end() -> (op: Op)
        ensures
            op.spec_kind() == OpType::Retain(usize::MAX),
            op.attrs_model()@.len() == 0,
    {
        Self::retain(usize::MAX, None)
    }

    pub fn is_insert(&self) -> (r: bool)
        ensures
            r == (self.spec_kind() matches OpType::Insert(_)),
    {
        matches!(self.kind, OpType::Insert(_))
    }

    pub fn is_text_insert(&self) -> (r: bool)
        ensures
            r == self.is_text_insert_spec(),
    {
        matches!(self.kind, OpType::Insert(Content::Text(_)))
    }

    pub fn is_retain(&self) -> (r: bool)
        ensures
            r == (self.spec_kind() matches OpType::Retain(_)),
    {
        matches!(self.kind, OpType::Retain(_))
    }

    pub fn is_delete(&self) -> (r: bool)
        ensures
            r == (self.spec_kind() matches OpType::Delete(_)),
    {
        matches!(self.kind, OpType::Delete(_))
    }

    pub fn kind(&self) -> (k: &OpType)
        ensures
            *k == self.spec_kind(),
    {
        &self.kind
    }

    pub fn len(&self) -> (n: usize)
        ensures
            n == self.spec_len(),
    {
        match &self.kind {
            OpType::Insert(Content::Text(s)) => s.as_str().unicode_len(),
            OpType::Insert(Content::Embed(_)) => 1,
            OpType::Retain(l) => *l,
            OpType::Delete(l) => *l,
        }
    }

    pub fn is_empty(&self) -> (r: bool)
        ensures
            r == (self.spec_len() == 0),
    {
        self.len() == 0
    }

    /// `None` for delete operations and for an empty attribute map.
    pub fn attributes(&self) -> (r: Option<&AttributesMap>)
        ensures
            match r {
                Some(m) => *m == self.attrs_model() && !(self.spec_kind() matches OpType::Delete(
                    _,
                )) && self.attrs_model()@.len() > 0,
                None => (self.spec_kind() matches OpType::Delete(_)) || self.attrs_model()@.len()
                    == 0,
            },
    {
        match &self.kind {
            OpType::Delete(_) => None,
            _ => {
                if self.attributes.is_empty() {
                    None
                } else {
                    Some(&self.attributes)
                }
            },
        }
    }

    /// The inserted value.  For an embed the very value is returned; for
    /// text a JSON string is built around the characters.
    ///
    /// Restricted to insert operations: calling it on a retain or a
    /// delete is a programming error, excluded by the precondition
    /// rather than reported at run time.
    pub fn value(&self) -> (v: serde_json::Value)
        requires
            self.spec_kind() matches OpType::Insert(_),
        ensures
            match self.spec_kind() {
                OpType::Insert(Content::Embed(e)) => v == e,
                _ => true,
            },
    {
        match &self.kind {
            OpType::Insert(Content::Text(s)) => json_string_value(s),
            OpType::Insert(Content::Embed(v)) => v.clone(),
            _ => vstd::pervasive::unreached(),
        }
    }

    /// The characters of a text insert.
    ///
    /// Restricted to text inserts: calling it on any other operation
    /// is a programming error, excluded by the precondition rather
    /// than reported at run time.
    pub fn value_as_string(&self) -> (s: &str)
        requires
            self.is_text_insert_spec(),
        ensures
            s@ == self.text_model(),
    {
        match &self.kind {
            OpType::Insert(Content::Text(s)) => s.as_str(),
            _ => vstd::pervasive::unreached(),
        }
    }
}

/// Relies on `serde_json::Value::String`: wraps owned text in a JSON
/// string value.
#[verifier::external_body]
fn json_string_value(s: &String) -> (v: serde_json::Value) {
    serde_json::Value::String(s.clone())
}

} // verus!
