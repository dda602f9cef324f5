//! The abstract syntax tree: a tagged node with exclusively owned children
//! and a bag of typed attributes.
//!
//! Attributes live in an association list; setting a key shadows an earlier
//! entry, and a lookup returns the most recent value under the key. Numeric
//! literal nodes keep the literal's source text as a string attribute next
//! to the parsed value, so no attribute ever needs a floating-point field.

use vstd::prelude::*;
use crate::strutil::str_eq;

verus! {

#[derive(Debug, Clone, Copy, PartialEq, Eq, Structural)]
pub enum AstNodeType {
    // Core program structure
    Program,
    FunctionDecl,
    FunctionBody,
    TypeDecl,
    VarDecl,
    ClassDecl,
    ClassBody,
    MemberVar,
    Import,
    // Type system
    BasicType,
    MeaningType,
    // Parameters and arguments
    ParamList,
    Parameter,
    // Statements
    Block,
    ExprStmt,
    ReturnStmt,
    PromptBlock,
    // Expressions
    CallExpr,
    Identifier,
    // Literals
    StringLiteral,
    IntLiteral,
    FloatLiteral,
    BoolLiteral,
}

#[derive(Debug, Clone)]
pub enum PropertyValue {
    Text(String),
    Int(i64),
    Bool(bool),
}

#[derive(Debug)]
pub struct AstNode {
    pub node_type: AstNodeType,
    pub children: Vec<AstNode>,
    pub properties: Vec<(String, PropertyValue)>,
    pub line: usize,
    pub column: usize,
}

/// First value stored under key `k`, scanning from the front; a fresh entry
/// is inserted at the front, so the first match is the current value.
pub open spec fn lookup_prop(ps: Seq<(String, PropertyValue)>, k: Seq<char>) -> Option<
    PropertyValue,
>
    decreases ps.len(),
{
    if ps.len() == 0 {
        None
    } else if ps[0].0@ == k {
        Some(ps[0].1)
    } else {
        lookup_prop(ps.drop_first(), k)
    }
}

impl AstNode {
    /// The string attribute under `k`, if one is set.
    pub open spec fn str_prop(&self, k: Seq<char>) -> Option<Seq<char>> {
        match lookup_prop(self.properties@, k) {
            Some(PropertyValue::Text(s)) => Some(s@),
            _ => None,
        }
    }

    /// The integer attribute under `k`, if one is set.
    pub open spec fn int_prop(&self, k: Seq<char>) -> Option<i64> {
        match lookup_prop(self.properties@, k) {
            Some(PropertyValue::Int(v)) => Some(v),
            _ => None,
        }
    }

    /// The boolean attribute under `k`, if one is set.
    pub open spec fn bool_prop(&self, k: Seq<char>) -> Option<bool> {
        match lookup_prop(self.properties@, k) {
            Some(PropertyValue::Bool(v)) => Some(v),
            _ => None,
        }
    }

    pub fn new(node_type: AstNodeType) -> (r: AstNode)
        ensures
            r.node_type == node_type,
            r.children@ =~= Seq::<AstNode>::empty(),
            r.properties@ =~= Seq::<(String, PropertyValue)>::empty(),
            r.line == 0,
            r.column == 0,
    {
        AstNode {
            node_type,
            children: Vec::new(),
            properties: Vec::new(),
            line: 0,
            column: 0,
        }
    }

    pub fn add_child(&mut self, child: AstNode)
        ensures
            final(self).children@ == old(self).children@.push(child),
            final(self).node_type == old(self).node_type,
            final(self).properties == old(self).properties,
            final(self).line == old(self).line,
            final(self).column == old(self).column,
    {
        self.children.push(child);
    }

    fn set_prop(&mut self, name: &str, value: PropertyValue)
        ensures
            lookup_prop(final(self).properties@, name@) == Some(value),
            forall|k: Seq<char>|
                k != name@ ==> #[trigger] lookup_prop(final(self).properties@, k) == lookup_prop(
                    old(self).properties@,
                    k,
                ),
            final(self).node_type == old(self).node_type,
            final(self).children == old(self).children,
            final(self).line == old(self).line,
            final(self).column == old(self).column,
    {
        let entry = (name.to_owned(), value);
        self.properties.insert(0, entry);
        proof {
            assert(self.properties@.drop_first() =~= old(self).properties@);
        }
    }

    pub fn set_string(&mut self, name: &str, value: &str)
        ensures
            final(self).str_prop(name@) == Some(value@),
            forall|k: Seq<char>|
                k != name@ ==> #[trigger] lookup_prop(final(self).properties@, k) == lookup_prop(
                    old(self).properties@,
                    k,
                ),
            final(self).node_type == old(self).node_type,
            final(self).children == old(self).children,
            final(self).line == old(self).line,
            final(self).column == old(self).column,
    {
        self.set_prop(name, PropertyValue::Text(value.to_owned()));
    }

    pub fn set_int(&mut self, name: &str, value: i64)
        ensures
            final(self).int_prop(name@) == Some(value),
            forall|k: Seq<char>|
                k != name@ ==> #[trigger] lookup_prop(final(self).properties@, k) == lookup_prop(
                    old(self).properties@,
                    k,
                ),
            final(self).node_type == old(self).node_type,
            final(self).children == old(self).children,
            final(self).line == old(self).line,
            final(self).column == old(self).column,
    {
        self.set_prop(name, PropertyValue::Int(value));
    }

    pub fn set_bool(&mut self, name: &str, value: bool)
        ensures
            final(self).bool_prop(name@) == Some(value),
            forall|k: Seq<char>|
                k != name@ ==> #[trigger] lookup_prop(final(self).properties@, k) == lookup_prop(
                    old(self).properties@,
                    k,
                ),
            final(self).node_type == old(self).node_type,
            final(self).children == old(self).children,
            final(self).line == old(self).line,
            final(self).column == old(self).column,
    {
        self.set_prop(name, PropertyValue::Bool(value));
    }

    fn get_prop(&self, name: &str) -> (r: Option<PropertyValue>)
        ensures
            match r {
                Some(v) => lookup_prop(self.properties@, name@) == Some(v),
                None => lookup_prop(self.properties@, name@) is None,
            },
    {
        let mut i: usize = 0;
        proof {
            assert(self.properties@.skip(0) =~= self.properties@);
        }
        while i < self.properties.len()
            invariant
                i <= self.properties@.len(),
                lookup_prop(self.properties@, name@) == lookup_prop(
                    self.properties@.skip(i as int),
                    name@,
                ),
            decreases self.properties@.len() - i,
        {
            proof {
                assert(self.properties@.skip(i as int).drop_first() =~= self.properties@.skip(
                    i + 1 as int,
                ));
            }
            if str_eq(self.properties[i].0.as_str(), name) {
                proof {
                    assert(self.properties@.skip(i as int)[0] == self.properties@[i as int]);
                }
                return Some(clone_prop(&self.properties[i].1));
            }
            i += 1;
        }
        proof {
            assert(self.properties@.skip(self.properties@.len() as int).len() == 0);
        }
        None
    }

    pub fn get_string(&self, name: &str) -> (r: Option<String>)
        ensures
            match r {
                Some(s) => self.str_prop(name@) == Some(s@),
                None => self.str_prop(name@) is None,
            },
    {
        match self.get_prop(name) {
            Some(PropertyValue::Text(s)) => Some(s),
            _ => None,
        }
    }

    pub fn get_int(&self, name: &str) -> (r: Option<i64>)
        ensures
            r == self.int_prop(name@),
    {
        match self.get_prop(name) {
            Some(PropertyValue::Int(v)) => Some(v),
            _ => None,
        }
    }

    pub fn get_bool(&self, name: &str) -> (r: Option<bool>)
        ensures
            r == self.bool_prop(name@),
    {
        match self.get_prop(name) {
            Some(PropertyValue::Bool(v)) => Some(v),
            _ => None,
        }
    }
}

/// Copies an attribute value; unlike a derived clone this pins the copy to
/// the original.
fn clone_prop(orig: &PropertyValue) -> (r: PropertyValue)
    ensures
        r == *orig,
{
    match orig {
        PropertyValue::Text(s) => PropertyValue::Text(s.clone()),
        PropertyValue::Int(v) => PropertyValue::Int(*v),
        PropertyValue::Bool(b) => PropertyValue::Bool(*b),
    }
}

/// The text carried by a literal or identifier node: the string value of a
/// string literal, the name of an identifier, nothing otherwise.
pub open spec fn spec_extract_string_value(node: &AstNode) -> Option<Seq<char>> {
    match node.node_type {
        AstNodeType::StringLiteral => node.str_prop("value"@),
        AstNodeType::Identifier => node.str_prop("name"@),
        _ => None,
    }
}

pub fn extract_string_value(node: &AstNode) -> (r: Option<String>)
    ensures
        match r {
            Some(s) => spec_extract_string_value(node) == Some(s@),
            None => spec_extract_string_value(node) is None,
        },
{
    match node.node_type {
        AstNodeType::StringLiteral => node.get_string("value"),
        AstNodeType::Identifier => node.get_string("name"),
        _ => None,
    }
}

} // verus!
