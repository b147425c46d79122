//! Numeric codes for the kinds of syntax nodes and tokens.
//!
//! The values mirror the `u16` representation of rnix's `SyntaxKind`
//! (version 0.14.0), in declaration order.  The trusted parser boundary in
//! `events` hands kinds out in this representation; everything downstream
//! interprets them through these named constants.

use vstd::prelude::*;

verus! {

pub const TOKEN_ADD: u16 = 0;

pub const TOKEN_AND_AND: u16 = 1;

pub const TOKEN_ASSIGN: u16 = 2;

pub const TOKEN_ASSERT: u16 = 3;

pub const TOKEN_AT: u16 = 4;

pub const TOKEN_COLON: u16 = 5;

pub const TOKEN_COMMA: u16 = 6;

pub const TOKEN_COMMENT: u16 = 7;

pub const TOKEN_CONCAT: u16 = 8;

pub const TOKEN_CUR_POS: u16 = 9;

pub const TOKEN_DIV: u16 = 10;

pub const TOKEN_DOT: u16 = 11;

pub const TOKEN_ELLIPSIS: u16 = 12;

pub const TOKEN_ELSE: u16 = 13;

pub const TOKEN_EQUAL: u16 = 14;

pub const TOKEN_ERROR: u16 = 15;

pub const TOKEN_FLOAT: u16 = 16;

pub const TOKEN_IDENT: u16 = 17;

pub const TOKEN_IF: u16 = 18;

pub const TOKEN_IMPLICATION: u16 = 19;

pub const TOKEN_IN: u16 = 20;

pub const TOKEN_INHERIT: u16 = 21;

pub const TOKEN_INTEGER: u16 = 22;

pub const TOKEN_INTERPOL_END: u16 = 23;

pub const TOKEN_INTERPOL_START: u16 = 24;

pub const TOKEN_INVERT: u16 = 25;

pub const TOKEN_L_BRACE: u16 = 26;

pub const TOKEN_L_BRACK: u16 = 27;

pub const TOKEN_L_PAREN: u16 = 28;

pub const TOKEN_LESS: u16 = 29;

pub const TOKEN_LESS_OR_EQ: u16 = 30;

pub const TOKEN_LET: u16 = 31;

pub const TOKEN_MORE: u16 = 32;

pub const TOKEN_MORE_OR_EQ: u16 = 33;

pub const TOKEN_MUL: u16 = 34;

pub const TOKEN_NOT_EQUAL: u16 = 35;

pub const TOKEN_OR_KEYWORD: u16 = 36;

pub const TOKEN_OR_OR: u16 = 37;

pub const TOKEN_PATH_ABS: u16 = 38;

pub const TOKEN_PATH_HOME: u16 = 39;

pub const TOKEN_PATH_REL: u16 = 40;

pub const TOKEN_PATH_SEARCH: u16 = 41;

pub const TOKEN_PIPE_LEFT: u16 = 42;

pub const TOKEN_PIPE_RIGHT: u16 = 43;

pub const TOKEN_QUESTION: u16 = 44;

pub const TOKEN_R_BRACE: u16 = 45;

pub const TOKEN_R_BRACK: u16 = 46;

pub const TOKEN_R_PAREN: u16 = 47;

pub const TOKEN_REC: u16 = 48;

pub const TOKEN_SEMICOLON: u16 = 49;

pub const TOKEN_STRING_CONTENT: u16 = 50;

pub const TOKEN_STRING_END: u16 = 51;

pub const TOKEN_STRING_START: u16 = 52;

pub const TOKEN_SUB: u16 = 53;

pub const TOKEN_THEN: u16 = 54;

pub const TOKEN_UPDATE: u16 = 55;

pub const TOKEN_URI: u16 = 56;

pub const TOKEN_WHITESPACE: u16 = 57;

pub const TOKEN_WITH: u16 = 58;

pub const NODE_APPLY: u16 = 59;

pub const NODE_ASSERT: u16 = 60;

pub const NODE_ATTR_SET: u16 = 61;

pub const NODE_ATTRPATH: u16 = 62;

pub const NODE_ATTRPATH_VALUE: u16 = 63;

pub const NODE_BIN_OP: u16 = 64;

pub const NODE_CUR_POS: u16 = 65;

pub const NODE_DYNAMIC: u16 = 66;

pub const NODE_ERROR: u16 = 67;

pub const NODE_HAS_ATTR: u16 = 68;

pub const NODE_IDENT: u16 = 69;

pub const NODE_IDENT_PARAM: u16 = 70;

pub const NODE_IF_ELSE: u16 = 71;

pub const NODE_INHERIT: u16 = 72;

pub const NODE_INHERIT_FROM: u16 = 73;

pub const NODE_INTERPOL: u16 = 74;

pub const NODE_LAMBDA: u16 = 75;

pub const NODE_LEGACY_LET: u16 = 76;

pub const NODE_LET_IN: u16 = 77;

pub const NODE_LIST: u16 = 78;

pub const NODE_LITERAL: u16 = 79;

pub const NODE_PAREN: u16 = 80;

pub const NODE_PAT_BIND: u16 = 81;

pub const NODE_PAT_ENTRY: u16 = 82;

pub const NODE_PATTERN: u16 = 83;

pub const NODE_PATH_ABS: u16 = 84;

pub const NODE_PATH_HOME: u16 = 85;

pub const NODE_PATH_REL: u16 = 86;

pub const NODE_PATH_SEARCH: u16 = 87;

pub const NODE_ROOT: u16 = 88;

pub const NODE_SELECT: u16 = 89;

pub const NODE_STRING: u16 = 90;

pub const NODE_UNARY_OP: u16 = 91;

pub const NODE_WITH: u16 = 92;

/// The node kinds that form expressions of the language.  `NODE_ROOT` counts
/// as an expression: it is the wrapper around a file's outermost expression.
pub open spec fn is_expr_kind(k: u16) -> bool {
    ||| k == NODE_APPLY
    ||| k == NODE_ASSERT
    ||| k == NODE_ERROR
    ||| k == NODE_IF_ELSE
    ||| k == NODE_SELECT
    ||| k == NODE_STRING
    ||| k == NODE_PATH_ABS
    ||| k == NODE_PATH_REL
    ||| k == NODE_PATH_HOME
    ||| k == NODE_PATH_SEARCH
    ||| k == NODE_LITERAL
    ||| k == NODE_LAMBDA
    ||| k == NODE_LEGACY_LET
    ||| k == NODE_LET_IN
    ||| k == NODE_LIST
    ||| k == NODE_BIN_OP
    ||| k == NODE_PAREN
    ||| k == NODE_ROOT
    ||| k == NODE_ATTR_SET
    ||| k == NODE_UNARY_OP
    ||| k == NODE_IDENT
    ||| k == NODE_WITH
    ||| k == NODE_HAS_ATTR
    ||| k == NODE_CUR_POS
}

pub fn expr_kind(k: u16) -> (r: bool)
    ensures
        r == is_expr_kind(k),
{
    (k == NODE_APPLY || k == NODE_ASSERT || k == NODE_ERROR || k == NODE_IF_ELSE || k
        == NODE_SELECT || k == NODE_STRING || k == NODE_PATH_ABS || k == NODE_PATH_REL || k
        == NODE_PATH_HOME || k == NODE_PATH_SEARCH || k == NODE_LITERAL || k == NODE_LAMBDA || k
        == NODE_LEGACY_LET || k == NODE_LET_IN || k == NODE_LIST || k == NODE_BIN_OP || k
        == NODE_PAREN || k == NODE_ROOT || k == NODE_ATTR_SET || k == NODE_UNARY_OP || k
        == NODE_IDENT || k == NODE_WITH || k == NODE_HAS_ATTR || k == NODE_CUR_POS)
}

/// The node kinds that can stand as one segment of an attribute path.
pub open spec fn is_attr_kind(k: u16) -> bool {
    k == NODE_IDENT || k == NODE_DYNAMIC || k == NODE_STRING
}

pub fn attr_kind(k: u16) -> (r: bool)
    ensures
        r == is_attr_kind(k),
{
    k == NODE_IDENT || k == NODE_DYNAMIC || k == NODE_STRING
}

} // verus!
