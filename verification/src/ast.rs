//! The syntax tree built by the reader and consumed by the compiler.

use vstd::prelude::*;

verus! {

/// One node of the parsed S-expression tree.  A pair is used both for
/// ordinary list structure and, in head position, as a function-call form.
#[derive(Debug, PartialEq)]
pub enum AstNode {
    Integer(i64),
    Bool(bool),
    Char(char),
    Nil,
    Pair { car: Box<AstNode>, cdr: Box<AstNode> },
    Symbol(String),
}

} // verus!
