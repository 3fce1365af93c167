//! The parser: from tokens to declarations of the syntax tree.
use vstd::prelude::*;
use crate::ast::{
    Statement, StructField, Expression, Literal, BinaryOperator, UnaryOperator, Parameter, MatchCase, Program, ExprV,
    StmtV, LitV, ev, evs, sv, svs, fevs, pvs, cvs, field_view, fields_view, variants_view, copy_expr,
};
use crate::text::{owned, string_push_str, chars_of, string_from_chars};
use crate::toml::{split_char, float_text, split_char_exec, float_exec};
use crate::stdlib::module::source::{trim_spec, trim_chars};

verus! {

/// The tokens of the language. A floating-point literal is held as the
/// bits of its IEEE 754 double; the keywords `Ok`, `Some` and `None` are the
/// variants `OkKw`, `SomeKw` and `NoneKw`.
#[derive(Debug, Clone, PartialEq)]
pub enum Token {
    Identifier(String),
    String(String),
    Integer(i64),
    Float(u64),
    UnitLiteral(String),
    Colon,
    Semicolon,
    LParen,
    RParen,
    LBrace,
    RBrace,
    LBracket,
    RBracket,
    Comma,
    Dot,
    Arrow,
    FatArrow,
    Assign,
    AddAssign,
    SubAssign,
    MulAssign,
    DivAssign,
    ModAssign,
    Plus,
    Minus,
    Star,
    Slash,
    Percent,
    Eq,
    Ne,
    Lt,
    Le,
    Gt,
    Ge,
    And,
    Or,
    Not,
    Ampersand,
    AndMut,
    Range,
    RangeInclusive,
    As,
    In,
    True,
    TrueZh,
    False,
    FalseZh,
    Null,
    Return,
    ReturnZh,
    Let,
    LetZh,
    Var,
    VarZh,
    Mut,
    Fn,
    KernelAttr,
    Struct,
    StructZh,
    Enum,
    EnumZh,
    Group,
    GroupZh,
    If,
    IfZh,
    Elif,
    ElifZh,
    Else,
    ElseZh,
    While,
    WhileZh,
    LoopZh,
    For,
    Match,
    MatchZh,
    Import,
    Print,
    Println,
    PrintZh,
    PrintlnZh,
    ErrorKeyword,
    OkKw,
    SomeKw,
    NoneKw,
    Box,
    Rc,
    Arc,
    List,
    Result,
    Option,
    Ref,
    RefZh,
    Lifetime,
}

/// A token without a payload.
pub open spec fn is_unit(t: Token) -> bool {
    !(t is Identifier || t is String || t is Integer || t is Float || t is UnitLiteral)
}

/// `a` is the payload-free token `b`.
pub fn same_unit(a: &Token, b: &Token) -> (r: bool)
    requires
        is_unit(*b),
    ensures
        r == (*a == *b),
{
    match b {
        Token::Colon => matches!(a, Token::Colon),
        Token::Semicolon => matches!(a, Token::Semicolon),
        Token::LParen => matches!(a, Token::LParen),
        Token::RParen => matches!(a, Token::RParen),
        Token::LBrace => matches!(a, Token::LBrace),
        Token::RBrace => matches!(a, Token::RBrace),
        Token::LBracket => matches!(a, Token::LBracket),
        Token::RBracket => matches!(a, Token::RBracket),
        Token::Comma => matches!(a, Token::Comma),
        Token::Dot => matches!(a, Token::Dot),
        Token::Arrow => matches!(a, Token::Arrow),
        Token::FatArrow => matches!(a, Token::FatArrow),
        Token::Assign => matches!(a, Token::Assign),
        Token::AddAssign => matches!(a, Token::AddAssign),
        Token::SubAssign => matches!(a, Token::SubAssign),
        Token::MulAssign => matches!(a, Token::MulAssign),
        Token::DivAssign => matches!(a, Token::DivAssign),
        Token::ModAssign => matches!(a, Token::ModAssign),
        Token::Plus => matches!(a, Token::Plus),
        Token::Minus => matches!(a, Token::Minus),
        Token::Star => matches!(a, Token::Star),
        Token::Slash => matches!(a, Token::Slash),
        Token::Percent => matches!(a, Token::Percent),
        Token::Eq => matches!(a, Token::Eq),
        Token::Ne => matches!(a, Token::Ne),
        Token::Lt => matches!(a, Token::Lt),
        Token::Le => matches!(a, Token::Le),
        Token::Gt => matches!(a, Token::Gt),
        Token::Ge => matches!(a, Token::Ge),
        Token::And => matches!(a, Token::And),
        Token::Or => matches!(a, Token::Or),
        Token::Not => matches!(a, Token::Not),
        Token::Ampersand => matches!(a, Token::Ampersand),
        Token::AndMut => matches!(a, Token::AndMut),
        Token::Range => matches!(a, Token::Range),
        Token::RangeInclusive => matches!(a, Token::RangeInclusive),
        Token::As => matches!(a, Token::As),
        Token::In => matches!(a, Token::In),
        Token::True => matches!(a, Token::True),
        Token::TrueZh => matches!(a, Token::TrueZh),
        Token::False => matches!(a, Token::False),
        Token::FalseZh => matches!(a, Token::FalseZh),
        Token::Null => matches!(a, Token::Null),
        Token::Return => matches!(a, Token::Return),
        Token::ReturnZh => matches!(a, Token::ReturnZh),
        Token::Let => matches!(a, Token::Let),
        Token::LetZh => matches!(a, Token::LetZh),
        Token::Var => matches!(a, Token::Var),
        Token::VarZh => matches!(a, Token::VarZh),
        Token::Mut => matches!(a, Token::Mut),
        Token::Fn => matches!(a, Token::Fn),
        Token::KernelAttr => matches!(a, Token::KernelAttr),
        Token::Struct => matches!(a, Token::Struct),
        Token::StructZh => matches!(a, Token::StructZh),
        Token::Enum => matches!(a, Token::Enum),
        Token::EnumZh => matches!(a, Token::EnumZh),
        Token::Group => matches!(a, Token::Group),
        Token::GroupZh => matches!(a, Token::GroupZh),
        Token::If => matches!(a, Token::If),
        Token::IfZh => matches!(a, Token::IfZh),
        Token::Elif => matches!(a, Token::Elif),
        Token::ElifZh => matches!(a, Token::ElifZh),
        Token::Else => matches!(a, Token::Else),
        Token::ElseZh => matches!(a, Token::ElseZh),
        Token::While => matches!(a, Token::While),
        Token::WhileZh => matches!(a, Token::WhileZh),
        Token::LoopZh => matches!(a, Token::LoopZh),
        Token::For => matches!(a, Token::For),
        Token::Match => matches!(a, Token::Match),
        Token::MatchZh => matches!(a, Token::MatchZh),
        Token::Import => matches!(a, Token::Import),
        Token::Print => matches!(a, Token::Print),
        Token::Println => matches!(a, Token::Println),
        Token::PrintZh => matches!(a, Token::PrintZh),
        Token::PrintlnZh => matches!(a, Token::PrintlnZh),
        Token::ErrorKeyword => matches!(a, Token::ErrorKeyword),
        Token::OkKw => matches!(a, Token::OkKw),
        Token::SomeKw => matches!(a, Token::SomeKw),
        Token::NoneKw => matches!(a, Token::NoneKw),
        Token::Box => matches!(a, Token::Box),
        Token::Rc => matches!(a, Token::Rc),
        Token::Arc => matches!(a, Token::Arc),
        Token::List => matches!(a, Token::List),
        Token::Result => matches!(a, Token::Result),
        Token::Option => matches!(a, Token::Option),
        Token::Ref => matches!(a, Token::Ref),
        Token::RefZh => matches!(a, Token::RefZh),
        Token::Lifetime => matches!(a, Token::Lifetime),
        _ => false,
    }
}

/// The name of a payload-free token as its debug text writes it.
pub open spec fn unit_name(t: Token) -> Seq<char> {
    match t {
        Token::Colon => "Colon"@,
        Token::Semicolon => "Semicolon"@,
        Token::LParen => "LParen"@,
        Token::RParen => "RParen"@,
        Token::LBrace => "LBrace"@,
        Token::RBrace => "RBrace"@,
        Token::LBracket => "LBracket"@,
        Token::RBracket => "RBracket"@,
        Token::Comma => "Comma"@,
        Token::Dot => "Dot"@,
        Token::Arrow => "Arrow"@,
        Token::FatArrow => "FatArrow"@,
        Token::Assign => "Assign"@,
        Token::AddAssign => "AddAssign"@,
        Token::SubAssign => "SubAssign"@,
        Token::MulAssign => "MulAssign"@,
        Token::DivAssign => "DivAssign"@,
        Token::ModAssign => "ModAssign"@,
        Token::Plus => "Plus"@,
        Token::Minus => "Minus"@,
        Token::Star => "Star"@,
        Token::Slash => "Slash"@,
        Token::Percent => "Percent"@,
        Token::Eq => "Eq"@,
        Token::Ne => "Ne"@,
        Token::Lt => "Lt"@,
        Token::Le => "Le"@,
        Token::Gt => "Gt"@,
        Token::Ge => "Ge"@,
        Token::And => "And"@,
        Token::Or => "Or"@,
        Token::Not => "Not"@,
        Token::Ampersand => "Ampersand"@,
        Token::AndMut => "AndMut"@,
        Token::Range => "Range"@,
        Token::RangeInclusive => "RangeInclusive"@,
        Token::As => "As"@,
        Token::In => "In"@,
        Token::True => "True"@,
        Token::TrueZh => "TrueZh"@,
        Token::False => "False"@,
        Token::FalseZh => "FalseZh"@,
        Token::Null => "Null"@,
        Token::Return => "Return"@,
        Token::ReturnZh => "ReturnZh"@,
        Token::Let => "Let"@,
        Token::LetZh => "LetZh"@,
        Token::Var => "Var"@,
        Token::VarZh => "VarZh"@,
        Token::Mut => "Mut"@,
        Token::Fn => "Fn"@,
        Token::KernelAttr => "KernelAttr"@,
        Token::Struct => "Struct"@,
        Token::StructZh => "StructZh"@,
        Token::Enum => "Enum"@,
        Token::EnumZh => "EnumZh"@,
        Token::Group => "Group"@,
        Token::GroupZh => "GroupZh"@,
        Token::If => "If"@,
        Token::IfZh => "IfZh"@,
        Token::Elif => "Elif"@,
        Token::ElifZh => "ElifZh"@,
        Token::Else => "Else"@,
        Token::ElseZh => "ElseZh"@,
        Token::While => "While"@,
        Token::WhileZh => "WhileZh"@,
        Token::LoopZh => "LoopZh"@,
        Token::For => "For"@,
        Token::Match => "Match"@,
        Token::MatchZh => "MatchZh"@,
        Token::Import => "Import"@,
        Token::Print => "Print"@,
        Token::Println => "Println"@,
        Token::PrintZh => "PrintZh"@,
        Token::PrintlnZh => "PrintlnZh"@,
        Token::ErrorKeyword => "ErrorKeyword"@,
        Token::OkKw => "Ok"@,
        Token::SomeKw => "Some"@,
        Token::NoneKw => "None"@,
        Token::Box => "Box"@,
        Token::Rc => "Rc"@,
        Token::Arc => "Arc"@,
        Token::List => "List"@,
        Token::Result => "Result"@,
        Token::Option => "Option"@,
        Token::Ref => "Ref"@,
        Token::RefZh => "RefZh"@,
        Token::Lifetime => "Lifetime"@,
        _ => Seq::empty(),
    }
}

/// The name of a payload-free token.
pub fn token_name(t: &Token) -> (r: String)
    requires
        is_unit(*t),
    ensures
        r@ == unit_name(*t),
{
    match t {
        Token::Colon => {
            proof {
                reveal_strlit("Colon");
            }
            owned("Colon")
        },
        Token::Semicolon => {
            proof {
                reveal_strlit("Semicolon");
            }
            owned("Semicolon")
        },
        Token::LParen => {
            proof {
                reveal_strlit("LParen");
            }
            owned("LParen")
        },
        Token::RParen => {
            proof {
                reveal_strlit("RParen");
            }
            owned("RParen")
        },
        Token::LBrace => {
            proof {
                reveal_strlit("LBrace");
            }
            owned("LBrace")
        },
        Token::RBrace => {
            proof {
                reveal_strlit("RBrace");
            }
            owned("RBrace")
        },
        Token::LBracket => {
            proof {
                reveal_strlit("LBracket");
            }
            owned("LBracket")
        },
        Token::RBracket => {
            proof {
                reveal_strlit("RBracket");
            }
            owned("RBracket")
        },
        Token::Comma => {
            proof {
                reveal_strlit("Comma");
            }
            owned("Comma")
        },
        Token::Dot => {
            proof {
                reveal_strlit("Dot");
            }
            owned("Dot")
        },
        Token::Arrow => {
            proof {
                reveal_strlit("Arrow");
            }
            owned("Arrow")
        },
        Token::FatArrow => {
            proof {
                reveal_strlit("FatArrow");
            }
            owned("FatArrow")
        },
        Token::Assign => {
            proof {
                reveal_strlit("Assign");
            }
            owned("Assign")
        },
        Token::AddAssign => {
            proof {
                reveal_strlit("AddAssign");
            }
            owned("AddAssign")
        },
        Token::SubAssign => {
            proof {
                reveal_strlit("SubAssign");
            }
            owned("SubAssign")
        },
        Token::MulAssign => {
            proof {
                reveal_strlit("MulAssign");
            }
            owned("MulAssign")
        },
        Token::DivAssign => {
            proof {
                reveal_strlit("DivAssign");
            }
            owned("DivAssign")
        },
        Token::ModAssign => {
            proof {
                reveal_strlit("ModAssign");
            }
            owned("ModAssign")
        },
        Token::Plus => {
            proof {
                reveal_strlit("Plus");
            }
            owned("Plus")
        },
        Token::Minus => {
            proof {
                reveal_strlit("Minus");
            }
            owned("Minus")
        },
        Token::Star => {
            proof {
                reveal_strlit("Star");
            }
            owned("Star")
        },
        Token::Slash => {
            proof {
                reveal_strlit("Slash");
            }
            owned("Slash")
        },
        Token::Percent => {
            proof {
                reveal_strlit("Percent");
            }
            owned("Percent")
        },
        Token::Eq => {
            proof {
                reveal_strlit("Eq");
            }
            owned("Eq")
        },
        Token::Ne => {
            proof {
                reveal_strlit("Ne");
            }
            owned("Ne")
        },
        Token::Lt => {
            proof {
                reveal_strlit("Lt");
            }
            owned("Lt")
        },
        Token::Le => {
            proof {
                reveal_strlit("Le");
            }
            owned("Le")
        },
        Token::Gt => {
            proof {
                reveal_strlit("Gt");
            }
            owned("Gt")
        },
        Token::Ge => {
            proof {
                reveal_strlit("Ge");
            }
            owned("Ge")
        },
        Token::And => {
            proof {
                reveal_strlit("And");
            }
            owned("And")
        },
        Token::Or => {
            proof {
                reveal_strlit("Or");
            }
            owned("Or")
        },
        Token::Not => {
            proof {
                reveal_strlit("Not");
            }
            owned("Not")
        },
        Token::Ampersand => {
            proof {
                reveal_strlit("Ampersand");
            }
            owned("Ampersand")
        },
        Token::AndMut => {
            proof {
                reveal_strlit("AndMut");
            }
            owned("AndMut")
        },
        Token::Range => {
            proof {
                reveal_strlit("Range");
            }
            owned("Range")
        },
        Token::RangeInclusive => {
            proof {
                reveal_strlit("RangeInclusive");
            }
            owned("RangeInclusive")
        },
        Token::As => {
            proof {
                reveal_strlit("As");
            }
            owned("As")
        },
        Token::In => {
            proof {
                reveal_strlit("In");
            }
            owned("In")
        },
        Token::True => {
            proof {
                reveal_strlit("True");
            }
            owned("True")
        },
        Token::TrueZh => {
            proof {
                reveal_strlit("TrueZh");
            }
            owned("TrueZh")
        },
        Token::False => {
            proof {
                reveal_strlit("False");
            }
            owned("False")
        },
        Token::FalseZh => {
            proof {
                reveal_strlit("FalseZh");
            }
            owned("FalseZh")
        },
        Token::Null => {
            proof {
                reveal_strlit("Null");
            }
            owned("Null")
        },
        Token::Return => {
            proof {
                reveal_strlit("Return");
            }
            owned("Return")
        },
        Token::ReturnZh => {
            proof {
                reveal_strlit("ReturnZh");
            }
            owned("ReturnZh")
        },
        Token::Let => {
            proof {
                reveal_strlit("Let");
            }
            owned("Let")
        },
        Token::LetZh => {
            proof {
                reveal_strlit("LetZh");
            }
            owned("LetZh")
        },
        Token::Var => {
            proof {
                reveal_strlit("Var");
            }
            owned("Var")
        },
        Token::VarZh => {
            proof {
                reveal_strlit("VarZh");
            }
            owned("VarZh")
        },
        Token::Mut => {
            proof {
                reveal_strlit("Mut");
            }
            owned("Mut")
        },
        Token::Fn => {
            proof {
                reveal_strlit("Fn");
            }
            owned("Fn")
        },
        Token::KernelAttr => {
            proof {
                reveal_strlit("KernelAttr");
            }
            owned("KernelAttr")
        },
        Token::Struct => {
            proof {
                reveal_strlit("Struct");
            }
            owned("Struct")
        },
        Token::StructZh => {
            proof {
                reveal_strlit("StructZh");
            }
            owned("StructZh")
        },
        Token::Enum => {
            proof {
                reveal_strlit("Enum");
            }
            owned("Enum")
        },
        Token::EnumZh => {
            proof {
                reveal_strlit("EnumZh");
            }
            owned("EnumZh")
        },
        Token::Group => {
            proof {
                reveal_strlit("Group");
            }
            owned("Group")
        },
        Token::GroupZh => {
            proof {
                reveal_strlit("GroupZh");
            }
            owned("GroupZh")
        },
        Token::If => {
            proof {
                reveal_strlit("If");
            }
            owned("If")
        },
        Token::IfZh => {
            proof {
                reveal_strlit("IfZh");
            }
            owned("IfZh")
        },
        Token::Elif => {
            proof {
                reveal_strlit("Elif");
            }
            owned("Elif")
        },
        Token::ElifZh => {
            proof {
                reveal_strlit("ElifZh");
            }
            owned("ElifZh")
        },
        Token::Else => {
            proof {
                reveal_strlit("Else");
            }
            owned("Else")
        },
        Token::ElseZh => {
            proof {
                reveal_strlit("ElseZh");
            }
            owned("ElseZh")
        },
        Token::While => {
            proof {
                reveal_strlit("While");
            }
            owned("While")
        },
        Token::WhileZh => {
            proof {
                reveal_strlit("WhileZh");
            }
            owned("WhileZh")
        },
        Token::LoopZh => {
            proof {
                reveal_strlit("LoopZh");
            }
            owned("LoopZh")
        },
        Token::For => {
            proof {
                reveal_strlit("For");
            }
            owned("For")
        },
        Token::Match => {
            proof {
                reveal_strlit("Match");
            }
            owned("Match")
        },
        Token::MatchZh => {
            proof {
                reveal_strlit("MatchZh");
            }
            owned("MatchZh")
        },
        Token::Import => {
            proof {
                reveal_strlit("Import");
            }
            owned("Import")
        },
        Token::Print => {
            proof {
                reveal_strlit("Print");
            }
            owned("Print")
        },
        Token::Println => {
            proof {
                reveal_strlit("Println");
            }
            owned("Println")
        },
        Token::PrintZh => {
            proof {
                reveal_strlit("PrintZh");
            }
            owned("PrintZh")
        },
        Token::PrintlnZh => {
            proof {
                reveal_strlit("PrintlnZh");
            }
            owned("PrintlnZh")
        },
        Token::ErrorKeyword => {
            proof {
                reveal_strlit("ErrorKeyword");
            }
            owned("ErrorKeyword")
        },
        Token::OkKw => {
            proof {
                reveal_strlit("Ok");
            }
            owned("Ok")
        },
        Token::SomeKw => {
            proof {
                reveal_strlit("Some");
            }
            owned("Some")
        },
        Token::NoneKw => {
            proof {
                reveal_strlit("None");
            }
            owned("None")
        },
        Token::Box => {
            proof {
                reveal_strlit("Box");
            }
            owned("Box")
        },
        Token::Rc => {
            proof {
                reveal_strlit("Rc");
            }
            owned("Rc")
        },
        Token::Arc => {
            proof {
                reveal_strlit("Arc");
            }
            owned("Arc")
        },
        Token::List => {
            proof {
                reveal_strlit("List");
            }
            owned("List")
        },
        Token::Result => {
            proof {
                reveal_strlit("Result");
            }
            owned("Result")
        },
        Token::Option => {
            proof {
                reveal_strlit("Option");
            }
            owned("Option")
        },
        Token::Ref => {
            proof {
                reveal_strlit("Ref");
            }
            owned("Ref")
        },
        Token::RefZh => {
            proof {
                reveal_strlit("RefZh");
            }
            owned("RefZh")
        },
        Token::Lifetime => {
            proof {
                reveal_strlit("Lifetime");
            }
            owned("Lifetime")
        },
        _ => String::new(),
    }
}

/// A copy of a token.
pub fn copy_token(t: &Token) -> (r: Token)
    ensures
        r == *t,
{
    match t {
        Token::Identifier(s) => Token::Identifier(s.clone()),
        Token::String(s) => Token::String(s.clone()),
        Token::Integer(n) => Token::Integer(*n),
        Token::Float(b) => Token::Float(*b),
        Token::UnitLiteral(s) => Token::UnitLiteral(s.clone()),
        Token::Colon => Token::Colon,
        Token::Semicolon => Token::Semicolon,
        Token::LParen => Token::LParen,
        Token::RParen => Token::RParen,
        Token::LBrace => Token::LBrace,
        Token::RBrace => Token::RBrace,
        Token::LBracket => Token::LBracket,
        Token::RBracket => Token::RBracket,
        Token::Comma => Token::Comma,
        Token::Dot => Token::Dot,
        Token::Arrow => Token::Arrow,
        Token::FatArrow => Token::FatArrow,
        Token::Assign => Token::Assign,
        Token::AddAssign => Token::AddAssign,
        Token::SubAssign => Token::SubAssign,
        Token::MulAssign => Token::MulAssign,
        Token::DivAssign => Token::DivAssign,
        Token::ModAssign => Token::ModAssign,
        Token::Plus => Token::Plus,
        Token::Minus => Token::Minus,
        Token::Star => Token::Star,
        Token::Slash => Token::Slash,
        Token::Percent => Token::Percent,
        Token::Eq => Token::Eq,
        Token::Ne => Token::Ne,
        Token::Lt => Token::Lt,
        Token::Le => Token::Le,
        Token::Gt => Token::Gt,
        Token::Ge => Token::Ge,
        Token::And => Token::And,
        Token::Or => Token::Or,
        Token::Not => Token::Not,
        Token::Ampersand => Token::Ampersand,
        Token::AndMut => Token::AndMut,
        Token::Range => Token::Range,
        Token::RangeInclusive => Token::RangeInclusive,
        Token::As => Token::As,
        Token::In => Token::In,
        Token::True => Token::True,
        Token::TrueZh => Token::TrueZh,
        Token::False => Token::False,
        Token::FalseZh => Token::FalseZh,
        Token::Null => Token::Null,
        Token::Return => Token::Return,
        Token::ReturnZh => Token::ReturnZh,
        Token::Let => Token::Let,
        Token::LetZh => Token::LetZh,
        Token::Var => Token::Var,
        Token::VarZh => Token::VarZh,
        Token::Mut => Token::Mut,
        Token::Fn => Token::Fn,
        Token::KernelAttr => Token::KernelAttr,
        Token::Struct => Token::Struct,
        Token::StructZh => Token::StructZh,
        Token::Enum => Token::Enum,
        Token::EnumZh => Token::EnumZh,
        Token::Group => Token::Group,
        Token::GroupZh => Token::GroupZh,
        Token::If => Token::If,
        Token::IfZh => Token::IfZh,
        Token::Elif => Token::Elif,
        Token::ElifZh => Token::ElifZh,
        Token::Else => Token::Else,
        Token::ElseZh => Token::ElseZh,
        Token::While => Token::While,
        Token::WhileZh => Token::WhileZh,
        Token::LoopZh => Token::LoopZh,
        Token::For => Token::For,
        Token::Match => Token::Match,
        Token::MatchZh => Token::MatchZh,
        Token::Import => Token::Import,
        Token::Print => Token::Print,
        Token::Println => Token::Println,
        Token::PrintZh => Token::PrintZh,
        Token::PrintlnZh => Token::PrintlnZh,
        Token::ErrorKeyword => Token::ErrorKeyword,
        Token::OkKw => Token::OkKw,
        Token::SomeKw => Token::SomeKw,
        Token::NoneKw => Token::NoneKw,
        Token::Box => Token::Box,
        Token::Rc => Token::Rc,
        Token::Arc => Token::Arc,
        Token::List => Token::List,
        Token::Result => Token::Result,
        Token::Option => Token::Option,
        Token::Ref => Token::Ref,
        Token::RefZh => Token::RefZh,
        Token::Lifetime => Token::Lifetime,
    }
}

/// What an unexpected-token error found: a token, or an expression where a
/// struct name was expected.
#[derive(Debug)]
pub enum Found {
    Token(Token),
    Expression(Expression),
}

/// What an error found, by its texts.
pub enum FoundV {
    Tok(Token),
    Expr(ExprV),
}

/// What a parse error says, with its texts as character sequences.
pub enum ParseFault {
    Unexpected(Seq<char>, FoundV),
    Eof,
    Invalid(Seq<char>),
    Unsupported(Seq<char>),
}

/// Parse errors. An unexpected token is reported with what was expected
/// and the token found.
#[derive(Debug)]
pub enum ParserError {
    UnexpectedToken { expected: String, found: Found },
    UnexpectedEof,
    InvalidSyntax { message: String },
    UnsupportedFeature { feature: String },
}

/// An error by its texts.
pub open spec fn fault(e: ParserError) -> ParseFault {
    match e {
        ParserError::UnexpectedToken { expected, found } => ParseFault::Unexpected(expected@, match found {
            Found::Token(t) => FoundV::Tok(t),
            Found::Expression(e) => FoundV::Expr(ev(e)),
        }),
        ParserError::UnexpectedEof => ParseFault::Eof,
        ParserError::InvalidSyntax { message } => ParseFault::Invalid(message@),
        ParserError::UnsupportedFeature { feature } => ParseFault::Unsupported(feature@),
    }
}

/// A result with its error by its texts.
pub open spec fn lift<T>(r: Result<T, ParserError>) -> Result<T, ParseFault> {
    match r {
        Ok(x) => Ok(x),
        Err(e) => Err(fault(e)),
    }
}

/// A text result by its characters.
pub open spec fn lift_text(r: Result<String, ParserError>) -> Result<Seq<char>, ParseFault> {
    match r {
        Ok(x) => Ok(x@),
        Err(e) => Err(fault(e)),
    }
}

/// A field-list result by its fields' texts.
pub open spec fn lift_fields(r: Result<Vec<StructField>, ParserError>) -> Result<Seq<(Seq<char>, Seq<char>)>, ParseFault> {
    match r {
        Ok(x) => Ok(fields_view(x@)),
        Err(e) => Err(fault(e)),
    }
}

/// A statement result by its texts.
pub open spec fn lift_stmt(r: Result<Statement, ParserError>) -> Result<StmtV, ParseFault> {
    match r {
        Ok(s) => Ok(sv(s)),
        Err(e) => Err(fault(e)),
    }
}

/// An expression result by its texts.
pub open spec fn lift_expr(r: Result<Expression, ParserError>) -> Result<ExprV, ParseFault> {
    match r {
        Ok(e) => Ok(ev(e)),
        Err(e) => Err(fault(e)),
    }
}

// ---------------------------------------------------------------------------
// Moving over the tokens.
// ---------------------------------------------------------------------------

/// The token at `pos` is `t`.
pub open spec fn tok_at(toks: Seq<Token>, pos: int, t: Token) -> bool {
    0 <= pos < toks.len() && toks[pos] == t
}

/// The position after an advance: one further unless at the end.
pub open spec fn advance_pos(toks: Seq<Token>, pos: int) -> int {
    if 0 <= pos < toks.len() { pos + 1 } else { pos }
}

/// The token an advance returns: the one just passed over, which at the end
/// is the last token again.
pub open spec fn advance_tok(toks: Seq<Token>, pos: int) -> Result<Token, ParseFault> {
    let p = advance_pos(toks, pos);
    if p <= 0 || p > toks.len() { Err(ParseFault::Eof) } else { Ok(toks[p - 1]) }
}

/// The token at `pos`, or the end of input.
pub open spec fn peek_at(toks: Seq<Token>, pos: int) -> Result<Token, ParseFault> {
    if 0 <= pos < toks.len() { Ok(toks[pos]) } else { Err(ParseFault::Eof) }
}

/// Passing over the token `t`, or the error of finding another.
pub open spec fn expect_at(toks: Seq<Token>, pos: int, t: Token) -> (Result<(), ParseFault>, int) {
    if tok_at(toks, pos, t) {
        (Ok(()), pos + 1)
    } else {
        match peek_at(toks, pos) {
            Ok(f) => (Err(ParseFault::Unexpected(unit_name(t), FoundV::Tok(f))), pos),
            Err(e) => (Err(e), pos),
        }
    }
}

/// Whether the token at `pos` is the payload-free token `t`.
fn at(toks: &Vec<Token>, pos: usize, t: &Token) -> (r: bool)
    requires
        is_unit(*t),
    ensures
        r == tok_at(toks@, pos as int, *t),
        r ==> pos < toks.len(),
{
    if pos < toks.len() {
        same_unit(&toks[pos], t)
    } else {
        false
    }
}

/// Moves over one token unless at the end, and returns the token passed
/// over.
fn advance(toks: &Vec<Token>, pos: usize) -> (r: (Result<Token, ParserError>, usize))
    requires
        pos <= toks@.len(),
    ensures
        lift(r.0) == advance_tok(toks@, pos as int),
        r.1 == advance_pos(toks@, pos as int),
{
    let p = if pos < toks.len() { pos + 1 } else { pos };
    if p == 0 {
        (Err(ParserError::UnexpectedEof), p)
    } else {
        (Ok(copy_token(&toks[p - 1])), p)
    }
}

/// The token at `pos`.
fn peek(toks: &Vec<Token>, pos: usize) -> (r: Result<Token, ParserError>)
    ensures
        lift(r) == peek_at(toks@, pos as int),
{
    if pos < toks.len() {
        Ok(copy_token(&toks[pos]))
    } else {
        Err(ParserError::UnexpectedEof)
    }
}

/// Passes over the payload-free token `t`.
fn expect(toks: &Vec<Token>, pos: usize, t: &Token) -> (r: (Result<(), ParserError>, usize))
    requires
        is_unit(*t),
    ensures
        (lift(r.0), r.1 as int) == expect_at(toks@, pos as int, *t),
{
    if at(toks, pos, t) {
        (Ok(()), pos + 1)
    } else {
        match peek(toks, pos) {
            Ok(f) => (Err(ParserError::UnexpectedToken { expected: token_name(t), found: Found::Token(f) }), pos),
            Err(e) => (Err(e), pos),
        }
    }
}

/// The position after an optional token `t`.
pub open spec fn skip_opt(toks: Seq<Token>, pos: int, t: Token) -> int {
    if tok_at(toks, pos, t) { pos + 1 } else { pos }
}

// ---------------------------------------------------------------------------
// Types.
// ---------------------------------------------------------------------------

/// The modifier text and position after `ref`, `ref mut` or neither.
pub open spec fn modifier_at(toks: Seq<Token>, pos: int) -> (Seq<char>, int) {
    if tok_at(toks, pos, Token::Ref) || tok_at(toks, pos, Token::RefZh) {
        if tok_at(toks, pos + 1, Token::Mut) { ("mut ref"@, pos + 2) } else { ("ref"@, pos + 1) }
    } else {
        (Seq::empty(), pos)
    }
}

/// The name a token gives as the base of a type.
pub open spec fn base_name(t: Token) -> Option<Seq<char>> {
    match t {
        Token::List => Some("List"@),
        Token::Result => Some("Result"@),
        Token::Option => Some("Option"@),
        Token::Identifier(ty) => Some(ty@),
        _ => None,
    }
}

/// A type from `pos`: an optional `ref` (or `ref mut`), an optional
/// lifetime, then `&` and a type, `&mut` and a type, or a name, and then
/// optional type arguments in brackets. The text is the modifier, the
/// lifetime `'a`, and the type with its arguments joined by `, `.
pub open spec fn type_at(toks: Seq<Token>, pos: int) -> (Result<Seq<char>, ParseFault>, int)
    decreases toks.len() - pos, 1int,
{
    if pos < 0 || pos > toks.len() {
        (Err(ParseFault::Eof), pos)
    } else {
        let (modifier, p1) = modifier_at(toks, pos);
        let lifetime = if tok_at(toks, p1, Token::Lifetime) { "'a"@ } else { Seq::empty() };
        let p2 = skip_opt(toks, p1, Token::Lifetime);
        let (base, p3) = if tok_at(toks, p2, Token::And) {
            type_at(toks, p2 + 1)
        } else if tok_at(toks, p2, Token::AndMut) {
            let (r, p) = type_at(toks, p2 + 1);
            (match r { Ok(t) => Ok("mut "@ + t), Err(e) => Err(e) }, p)
        } else {
            (match advance_tok(toks, p2) {
                Err(e) => Err(e),
                Ok(tok) => match base_name(tok) {
                    Some(n) => Ok(n),
                    None => Err(ParseFault::Unexpected("type"@, FoundV::Tok(tok))),
                },
            }, advance_pos(toks, p2))
        };
        match base {
            Err(e) => (Err(e), p3),
            Ok(b) => if !(pos <= p3 <= toks.len()) {
                (Err(ParseFault::Eof), p3)
            } else if tok_at(toks, p3, Token::LBracket) {
                let (first, p4) = type_at(toks, p3 + 1);
                match first {
                    Err(e) => (Err(e), p4),
                    Ok(f) => if !(p3 < p4 <= toks.len()) {
                        (Err(ParseFault::Eof), p4)
                    } else {
                        let (rest, p5) = type_list(toks, p4, f);
                        match rest {
                            Err(e) => (Err(e), p5),
                            Ok(inner) => {
                                let (x, p6) = expect_at(toks, p5, Token::RBracket);
                                match x {
                                    Err(e) => (Err(e), p6),
                                    Ok(_) => (Ok(modifier + lifetime + b + "["@ + inner + "]"@), p6),
                                }
                            },
                        }
                    },
                }
            } else {
                (Ok(modifier + lifetime + b), p3)
            },
        }
    }
}

/// More type arguments, each after a comma, appended to `acc` with `, `.
pub open spec fn type_list(toks: Seq<Token>, pos: int, acc: Seq<char>) -> (Result<Seq<char>, ParseFault>, int)
    decreases toks.len() - pos, 0int,
{
    if pos < 0 || pos > toks.len() {
        (Err(ParseFault::Eof), pos)
    } else if tok_at(toks, pos, Token::Comma) {
        let (r, p) = type_at(toks, pos + 1);
        match r {
            Err(e) => (Err(e), p),
            Ok(t) => if !(pos < p <= toks.len()) {
                (Err(ParseFault::Eof), p)
            } else {
                type_list(toks, p, acc + ", "@ + t)
            },
        }
    } else {
        (Ok(acc), pos)
    }
}

/// Parses a type from `pos`; see `type_at`.
#[verifier::spinoff_prover]
#[verifier::rlimit(80)]
fn type_from(toks: &Vec<Token>, pos: usize) -> (r: (Result<String, ParserError>, usize))
    requires
        pos <= toks@.len(),
    ensures
        (lift_text(r.0), r.1 as int) == type_at(toks@, pos as int),
        pos <= r.1 <= toks@.len(),
    decreases toks@.len() - pos, 1int,
{
    proof {
        reveal_strlit("mut ref");
        reveal_strlit("ref");
        reveal_strlit("'a");
        reveal_strlit("mut ");
        reveal_strlit("List");
        reveal_strlit("Result");
        reveal_strlit("Option");
        reveal_strlit("type");
        reveal_strlit("[");
        reveal_strlit("]");
    }
    let ghost ts = toks@;
    let mut p = pos;
    let mut modifier = String::new();
    if at(toks, p, &Token::Ref) || at(toks, p, &Token::RefZh) {
        p = p + 1;
        if at(toks, p, &Token::Mut) {
            p = p + 1;
            modifier = owned("mut ref");
        } else {
            modifier = owned("ref");
        }
    }
    assert((modifier@, p as int) == modifier_at(ts, pos as int));
    let mut lifetime = String::new();
    if at(toks, p, &Token::Lifetime) {
        p = p + 1;
        lifetime = owned("'a");
    }
    let p2 = p;
    let (base, p3): (Result<String, ParserError>, usize) = if at(toks, p2, &Token::And) {
        type_from(toks, p2 + 1)
    } else if at(toks, p2, &Token::AndMut) {
        let (r, q) = type_from(toks, p2 + 1);
        match r {
            Ok(t) => {
                let mut m = owned("mut ");
                string_push_str(&mut m, t.as_str());
                (Ok(m), q)
            },
            Err(e) => (Err(e), q),
        }
    } else {
        let (a, q) = advance(toks, p2);
        match a {
            Err(e) => (Err(e), q),
            Ok(tok) => match tok {
                Token::List => (Ok(owned("List")), q),
                Token::Result => (Ok(owned("Result")), q),
                Token::Option => (Ok(owned("Option")), q),
                Token::Identifier(ty) => (Ok(ty), q),
                other => (Err(ParserError::UnexpectedToken { expected: owned("type"), found: Found::Token(other) }), q),
            },
        }
    };
    let b = match base {
        Err(e) => {
            return (Err(e), p3);
        },
        Ok(b) => b,
    };
    if at(toks, p3, &Token::LBracket) {
        let (first, p4) = type_from(toks, p3 + 1);
        let f = match first {
            Err(e) => {
                return (Err(e), p4);
            },
            Ok(f) => f,
        };
        let (rest, p5) = type_list_from(toks, p4, f);
        let inner = match rest {
            Err(e) => {
                return (Err(e), p5);
            },
            Ok(inner) => inner,
        };
        let (x, p6) = expect(toks, p5, &Token::RBracket);
        match x {
            Err(e) => (Err(e), p6),
            Ok(_) => {
                let mut out = modifier;
                string_push_str(&mut out, lifetime.as_str());
                string_push_str(&mut out, b.as_str());
                string_push_str(&mut out, "[");
                string_push_str(&mut out, inner.as_str());
                string_push_str(&mut out, "]");
                (Ok(out), p6)
            },
        }
    } else {
        let mut out = modifier;
        string_push_str(&mut out, lifetime.as_str());
        string_push_str(&mut out, b.as_str());
        (Ok(out), p3)
    }
}

/// Parses more type arguments after `acc`; see `type_list`.
fn type_list_from(toks: &Vec<Token>, pos: usize, acc: String) -> (r: (Result<String, ParserError>, usize))
    requires
        pos <= toks@.len(),
    ensures
        (lift_text(r.0), r.1 as int) == type_list(toks@, pos as int, acc@),
        pos <= r.1 <= toks@.len(),
    decreases toks@.len() - pos, 0int,
{
    proof {
        reveal_strlit(", ");
    }
    if at(toks, pos, &Token::Comma) {
        let (r, p) = type_from(toks, pos + 1);
        match r {
            Err(e) => (Err(e), p),
            Ok(t) => {
                let mut next = acc;
                string_push_str(&mut next, ", ");
                string_push_str(&mut next, t.as_str());
                type_list_from(toks, p, next)
            },
        }
    } else {
        (Ok(acc), pos)
    }
}

// ---------------------------------------------------------------------------
// Declarations.
// ---------------------------------------------------------------------------

/// Fields `name: type`, each optionally followed by a comma, up to a `}`;
/// appended to `acc`.
pub open spec fn fields_at(toks: Seq<Token>, pos: int, acc: Seq<(Seq<char>, Seq<char>)>) -> (Result<Seq<(Seq<char>, Seq<char>)>, ParseFault>, int)
    decreases toks.len() - pos,
{
    if pos < 0 || pos > toks.len() {
        (Err(ParseFault::Eof), pos)
    } else if tok_at(toks, pos, Token::RBrace) {
        (Ok(acc), pos)
    } else {
        let p1 = advance_pos(toks, pos);
        match advance_tok(toks, pos) {
            Err(e) => (Err(e), p1),
            Ok(Token::Identifier(n)) => {
                let (x, p2) = expect_at(toks, p1, Token::Colon);
                match x {
                    Err(e) => (Err(e), p2),
                    Ok(_) => {
                        let (t, p3) = type_at(toks, p2);
                        match t {
                            Err(e) => (Err(e), p3),
                            Ok(ty) => {
                                let p4 = skip_opt(toks, p3, Token::Comma);
                                if !(pos < p4 <= toks.len()) {
                                    (Err(ParseFault::Eof), p4)
                                } else {
                                    fields_at(toks, p4, acc.push((n@, ty)))
                                }
                            },
                        }
                    },
                }
            },
            Ok(other) => (Err(ParseFault::Unexpected("identifier"@, FoundV::Tok(other))), p1),
        }
    }
}

/// `struct Name { fields }` with an optional `;` after it.
pub open spec fn struct_at(toks: Seq<Token>, pos: int) -> (Result<StmtV, ParseFault>, int) {
    let p1 = advance_pos(toks, pos);
    match advance_tok(toks, pos) {
        Err(e) => (Err(e), p1),
        Ok(_) => {
            let p2 = advance_pos(toks, p1);
            match advance_tok(toks, p1) {
                Err(e) => (Err(e), p2),
                Ok(Token::Identifier(name)) => {
                    let (x, p3) = expect_at(toks, p2, Token::LBrace);
                    match x {
                        Err(e) => (Err(e), p3),
                        Ok(_) => {
                            let (fr, p4) = fields_at(toks, p3, Seq::empty());
                            match fr {
                                Err(e) => (Err(e), p4),
                                Ok(fs) => {
                                    let p5 = advance_pos(toks, p4);
                                    match advance_tok(toks, p4) {
                                        Err(e) => (Err(e), p5),
                                        Ok(_) => (Ok(StmtV::Struct(name@, fs)), skip_opt(toks, p5, Token::Semicolon)),
                                    }
                                },
                            }
                        },
                    }
                },
                Ok(other) => (Err(ParseFault::Unexpected("identifier"@, FoundV::Tok(other))), p2),
            }
        },
    }
}

/// The name a token gives to an enum variant: an identifier, or one of the
/// keywords `Error`, `Ok`, `Some`, `None`, `Box`, `Rc` and `Arc`.
pub open spec fn variant_name(t: Token) -> Option<Seq<char>> {
    match t {
        Token::Identifier(n) => Some(n@),
        Token::ErrorKeyword => Some("Error"@),
        Token::OkKw => Some("Ok"@),
        Token::SomeKw => Some("Some"@),
        Token::NoneKw => Some("None"@),
        Token::Box => Some("Box"@),
        Token::Rc => Some("Rc"@),
        Token::Arc => Some("Arc"@),
        _ => None,
    }
}

/// Fields `name: type` of a variant, separated by commas, up to a `)`;
/// appended to `acc`.
pub open spec fn vfields_at(toks: Seq<Token>, pos: int, acc: Seq<(Seq<char>, Seq<char>)>) -> (Result<Seq<(Seq<char>, Seq<char>)>, ParseFault>, int)
    decreases toks.len() - pos,
{
    if pos < 0 || pos > toks.len() {
        (Err(ParseFault::Eof), pos)
    } else if tok_at(toks, pos, Token::RParen) {
        (Ok(acc), pos)
    } else {
        let p1 = advance_pos(toks, pos);
        match advance_tok(toks, pos) {
            Err(e) => (Err(e), p1),
            Ok(Token::Identifier(n)) => {
                let (x, p2) = expect_at(toks, p1, Token::Colon);
                match x {
                    Err(e) => (Err(e), p2),
                    Ok(_) => {
                        let (t, p3) = type_at(toks, p2);
                        match t {
                            Err(e) => (Err(e), p3),
                            Ok(ty) => if tok_at(toks, p3, Token::Comma) || tok_at(toks, p3, Token::RParen) {
                                let p4 = skip_opt(toks, p3, Token::Comma);
                                if !(pos < p4 <= toks.len()) {
                                    (Err(ParseFault::Eof), p4)
                                } else {
                                    vfields_at(toks, p4, acc.push((n@, ty)))
                                }
                            } else {
                                (match peek_at(toks, p3) {
                                    Ok(f) => Err(ParseFault::Unexpected(", or )"@, FoundV::Tok(f))),
                                    Err(e) => Err(e),
                                }, p3)
                            },
                        }
                    },
                }
            },
            Ok(other) => (Err(ParseFault::Unexpected("identifier"@, FoundV::Tok(other))), p1),
        }
    }
}

/// The optional field list of a variant: `( fields )` or nothing.
pub open spec fn variant_fields_at(toks: Seq<Token>, pos: int) -> (Result<Option<Seq<(Seq<char>, Seq<char>)>>, ParseFault>, int) {
    if tok_at(toks, pos, Token::LParen) {
        let (r, q) = vfields_at(toks, pos + 1, Seq::empty());
        match r {
            Err(e) => (Err(e), q),
            Ok(fl) => {
                let q2 = advance_pos(toks, q);
                match advance_tok(toks, q) {
                    Err(e) => (Err(e), q2),
                    Ok(_) => (Ok(Some(fl)), q2),
                }
            },
        }
    } else {
        (Ok(None), pos)
    }
}

/// Variants, each a name, optional fields and an optional comma, up to a
/// `}`; appended to `acc`. A variant that passes over no token (a name
/// repeated at the end of the input) ends the input.
pub open spec fn variants_at(toks: Seq<Token>, pos: int, acc: Seq<(Seq<char>, Option<Seq<(Seq<char>, Seq<char>)>>)>) -> (Result<Seq<(Seq<char>, Option<Seq<(Seq<char>, Seq<char>)>>)>, ParseFault>, int)
    decreases toks.len() - pos,
{
    if pos < 0 || pos > toks.len() {
        (Err(ParseFault::Eof), pos)
    } else if tok_at(toks, pos, Token::RBrace) {
        (Ok(acc), pos)
    } else {
        let p1 = advance_pos(toks, pos);
        match advance_tok(toks, pos) {
            Err(e) => (Err(e), p1),
            Ok(tok) => match variant_name(tok) {
                None => (Err(ParseFault::Unexpected("identifier"@, FoundV::Tok(tok))), p1),
                Some(vn) => {
                    let (fr, p2) = variant_fields_at(toks, p1);
                    match fr {
                        Err(e) => (Err(e), p2),
                        Ok(f) => {
                            let p3 = skip_opt(toks, p2, Token::Comma);
                            if !(pos < p3 <= toks.len()) {
                                (Err(ParseFault::Eof), p3)
                            } else {
                                variants_at(toks, p3, acc.push((vn, f)))
                            }
                        },
                    }
                },
            },
        }
    }
}

/// `enum Name { variants }` with an optional `;` after it.
pub open spec fn enum_at(toks: Seq<Token>, pos: int) -> (Result<StmtV, ParseFault>, int) {
    let p1 = advance_pos(toks, pos);
    match advance_tok(toks, pos) {
        Err(e) => (Err(e), p1),
        Ok(_) => {
            let p2 = advance_pos(toks, p1);
            match advance_tok(toks, p1) {
                Err(e) => (Err(e), p2),
                Ok(Token::Identifier(name)) => {
                    let (x, p3) = expect_at(toks, p2, Token::LBrace);
                    match x {
                        Err(e) => (Err(e), p3),
                        Ok(_) => {
                            let (vr, p4) = variants_at(toks, p3, Seq::empty());
                            match vr {
                                Err(e) => (Err(e), p4),
                                Ok(vs) => {
                                    let p5 = advance_pos(toks, p4);
                                    match advance_tok(toks, p4) {
                                        Err(e) => (Err(e), p5),
                                        Ok(_) => (Ok(StmtV::Enum(name@, vs)), skip_opt(toks, p5, Token::Semicolon)),
                                    }
                                },
                            }
                        },
                    }
                },
                Ok(other) => (Err(ParseFault::Unexpected("identifier"@, FoundV::Tok(other))), p2),
            }
        },
    }
}

/// `import "path"` or `import "path" as alias`, with an optional `;`.
pub open spec fn import_at(toks: Seq<Token>, pos: int) -> (Result<StmtV, ParseFault>, int) {
    let p1 = advance_pos(toks, pos);
    match advance_tok(toks, pos) {
        Err(e) => (Err(e), p1),
        Ok(_) => {
            let p2 = advance_pos(toks, p1);
            match advance_tok(toks, p1) {
                Err(e) => (Err(e), p2),
                Ok(Token::String(path)) => if tok_at(toks, p2, Token::As) {
                    let p3 = advance_pos(toks, p2 + 1);
                    match advance_tok(toks, p2 + 1) {
                        Err(e) => (Err(e), p3),
                        Ok(Token::Identifier(alias)) => (Ok(StmtV::ImportAs(path@, alias@)), skip_opt(toks, p3, Token::Semicolon)),
                        Ok(other) => (Err(ParseFault::Unexpected("identifier"@, FoundV::Tok(other))), p3),
                    }
                } else {
                    (Ok(StmtV::Import(path@)), skip_opt(toks, p2, Token::Semicolon))
                },
                Ok(other) => (Err(ParseFault::Unexpected("string literal"@, FoundV::Tok(other))), p2),
            }
        },
    }
}

proof fn lemma_fields_view_push(fs: Seq<StructField>, f: StructField)
    ensures
        fields_view(fs.push(f)) == fields_view(fs).push(field_view(f)),
{
    assert(fields_view(fs.push(f)) =~= fields_view(fs).push(field_view(f)));
}

/// Parses struct fields after `acc`; see `fields_at`.
fn fields_from(toks: &Vec<Token>, pos: usize, acc: Vec<StructField>) -> (r: (Result<Vec<StructField>, ParserError>, usize))
    requires
        pos <= toks@.len(),
    ensures
        (lift_fields(r.0), r.1 as int) == fields_at(toks@, pos as int, fields_view(acc@)),
        pos <= r.1 <= toks@.len(),
    decreases toks@.len() - pos,
{
    proof {
        reveal_strlit("identifier");
    }
    if at(toks, pos, &Token::RBrace) {
        return (Ok(acc), pos);
    }
    let (a, p1) = advance(toks, pos);
    match a {
        Err(e) => (Err(e), p1),
        Ok(Token::Identifier(n)) => {
            let (x, p2) = expect(toks, p1, &Token::Colon);
            match x {
                Err(e) => (Err(e), p2),
                Ok(_) => {
                    let (t, p3) = type_from(toks, p2);
                    match t {
                        Err(e) => (Err(e), p3),
                        Ok(ty) => {
                            let p4 = if at(toks, p3, &Token::Comma) { p3 + 1 } else { p3 };
                            let mut next = acc;
                            let f = StructField { name: n, ty };
                            proof {
                                lemma_fields_view_push(next@, f);
                            }
                            next.push(f);
                            fields_from(toks, p4, next)
                        },
                    }
                },
            }
        },
        Ok(other) => (Err(ParserError::UnexpectedToken { expected: owned("identifier"), found: Found::Token(other) }), p1),
    }
}

/// Parses variant fields after `acc`; see `vfields_at`.
fn vfields_from(toks: &Vec<Token>, pos: usize, acc: Vec<StructField>) -> (r: (Result<Vec<StructField>, ParserError>, usize))
    requires
        pos <= toks@.len(),
    ensures
        (lift_fields(r.0), r.1 as int) == vfields_at(toks@, pos as int, fields_view(acc@)),
        pos <= r.1 <= toks@.len(),
    decreases toks@.len() - pos,
{
    proof {
        reveal_strlit("identifier");
        reveal_strlit(", or )");
    }
    if at(toks, pos, &Token::RParen) {
        return (Ok(acc), pos);
    }
    let (a, p1) = advance(toks, pos);
    match a {
        Err(e) => (Err(e), p1),
        Ok(Token::Identifier(n)) => {
            let (x, p2) = expect(toks, p1, &Token::Colon);
            match x {
                Err(e) => (Err(e), p2),
                Ok(_) => {
                    let (t, p3) = type_from(toks, p2);
                    match t {
                        Err(e) => (Err(e), p3),
                        Ok(ty) => {
                            if at(toks, p3, &Token::Comma) || at(toks, p3, &Token::RParen) {
                                let p4 = if at(toks, p3, &Token::Comma) { p3 + 1 } else { p3 };
                                let mut next = acc;
                                let f = StructField { name: n, ty };
                                proof {
                                    lemma_fields_view_push(next@, f);
                                }
                                next.push(f);
                                vfields_from(toks, p4, next)
                            } else {
                                match peek(toks, p3) {
                                    Ok(f) => (Err(ParserError::UnexpectedToken { expected: owned(", or )"), found: Found::Token(f) }), p3),
                                    Err(e) => (Err(e), p3),
                                }
                            }
                        },
                    }
                },
            }
        },
        Ok(other) => (Err(ParserError::UnexpectedToken { expected: owned("identifier"), found: Found::Token(other) }), p1),
    }
}

/// The optional field list of a variant; see `variant_fields_at`.
fn variant_fields_from(toks: &Vec<Token>, pos: usize) -> (r: (Result<Option<Vec<StructField>>, ParserError>, usize))
    requires
        pos <= toks@.len(),
    ensures
        (match r.0 {
            Ok(Some(f)) => Ok(Some(fields_view(f@))),
            Ok(None) => Ok(None),
            Err(e) => Err(fault(e)),
        }, r.1 as int) == variant_fields_at(toks@, pos as int),
        pos <= r.1 <= toks@.len(),
{
    if at(toks, pos, &Token::LParen) {
        let empty: Vec<StructField> = Vec::new();
        assert(fields_view(empty@) =~= Seq::empty());
        let (r, q) = vfields_from(toks, pos + 1, empty);
        match r {
            Err(e) => (Err(e), q),
            Ok(fl) => {
                let (a, q2) = advance(toks, q);
                match a {
                    Err(e) => (Err(e), q2),
                    Ok(_) => (Ok(Some(fl)), q2),
                }
            },
        }
    } else {
        (Ok(None), pos)
    }
}

/// The variant name a token gives; see `variant_name`.
fn variant_name_of(t: Token) -> (r: Result<String, Token>)
    ensures
        match variant_name(t) {
            Some(n) => r matches Ok(s) && s@ == n,
            None => r == Err::<String, Token>(t),
        },
{
    proof {
        reveal_strlit("Error");
        reveal_strlit("Ok");
        reveal_strlit("Some");
        reveal_strlit("None");
        reveal_strlit("Box");
        reveal_strlit("Rc");
        reveal_strlit("Arc");
    }
    match t {
        Token::Identifier(n) => Ok(n),
        Token::ErrorKeyword => Ok(owned("Error")),
        Token::OkKw => Ok(owned("Ok")),
        Token::SomeKw => Ok(owned("Some")),
        Token::NoneKw => Ok(owned("None")),
        Token::Box => Ok(owned("Box")),
        Token::Rc => Ok(owned("Rc")),
        Token::Arc => Ok(owned("Arc")),
        other => Err(other),
    }
}

/// Parses enum variants after `acc`; see `variants_at`.
fn variants_from(toks: &Vec<Token>, pos: usize, acc: Vec<(String, Option<Vec<StructField>>)>) -> (r: (Result<Vec<(String, Option<Vec<StructField>>)>, ParserError>, usize))
    requires
        pos <= toks@.len(),
    ensures
        (match r.0 {
            Ok(v) => Ok(variants_view(v@)),
            Err(e) => Err(fault(e)),
        }, r.1 as int) == variants_at(toks@, pos as int, variants_view(acc@)),
        pos <= r.1 <= toks@.len(),
    decreases toks@.len() - pos,
{
    proof {
        reveal_strlit("identifier");
    }
    if at(toks, pos, &Token::RBrace) {
        return (Ok(acc), pos);
    }
    let (a, p1) = advance(toks, pos);
    match a {
        Err(e) => (Err(e), p1),
        Ok(tok) => match variant_name_of(tok) {
            Err(other) => (Err(ParserError::UnexpectedToken { expected: owned("identifier"), found: Found::Token(other) }), p1),
            Ok(vn) => {
                let (fr, p2) = variant_fields_from(toks, p1);
                match fr {
                    Err(e) => (Err(e), p2),
                    Ok(f) => {
                        let p3 = if at(toks, p2, &Token::Comma) { p2 + 1 } else { p2 };
                        if p3 <= pos {
                            return (Err(ParserError::UnexpectedEof), p3);
                        }
                        let ghost fv = match &f { Some(x) => Some(fields_view(x@)), None => None::<Seq<(Seq<char>, Seq<char>)>> };
                        let mut next = acc;
                        let ghost before = next@;
                        next.push((vn, f));
                        proof {
                            assert(variants_view(next@) =~= variants_view(before).push((next@.last().0@, fv)));
                        }
                        variants_from(toks, p3, next)
                    },
                }
            },
        },
    }
}

/// Parses a struct declaration; see `struct_at`.
fn struct_from(toks: &Vec<Token>, pos: usize) -> (r: (Result<Statement, ParserError>, usize))
    requires
        pos <= toks@.len(),
    ensures
        (lift_stmt(r.0), r.1 as int) == struct_at(toks@, pos as int),
        pos <= r.1 <= toks@.len(),
{
    proof {
        reveal_strlit("identifier");
    }
    let (a, p1) = advance(toks, pos);
    if let Err(e) = a {
        return (Err(e), p1);
    }
    let (b, p2) = advance(toks, p1);
    let name = match b {
        Err(e) => {
            return (Err(e), p2);
        },
        Ok(Token::Identifier(name)) => name,
        Ok(other) => {
            return (Err(ParserError::UnexpectedToken { expected: owned("identifier"), found: Found::Token(other) }), p2);
        },
    };
    let (x, p3) = expect(toks, p2, &Token::LBrace);
    if let Err(e) = x {
        return (Err(e), p3);
    }
    let empty: Vec<StructField> = Vec::new();
    assert(fields_view(empty@) =~= Seq::empty());
    let (fr, p4) = fields_from(toks, p3, empty);
    let fields = match fr {
        Err(e) => {
            return (Err(e), p4);
        },
        Ok(fs) => fs,
    };
    let (c, p5) = advance(toks, p4);
    if let Err(e) = c {
        return (Err(e), p5);
    }
    let p6 = if at(toks, p5, &Token::Semicolon) { p5 + 1 } else { p5 };
    (Ok(Statement::Struct { name, fields }), p6)
}

/// Parses an enum declaration; see `enum_at`.
fn enum_from(toks: &Vec<Token>, pos: usize) -> (r: (Result<Statement, ParserError>, usize))
    requires
        pos <= toks@.len(),
    ensures
        (lift_stmt(r.0), r.1 as int) == enum_at(toks@, pos as int),
        pos <= r.1 <= toks@.len(),
{
    proof {
        reveal_strlit("identifier");
    }
    let (a, p1) = advance(toks, pos);
    if let Err(e) = a {
        return (Err(e), p1);
    }
    let (b, p2) = advance(toks, p1);
    let name = match b {
        Err(e) => {
            return (Err(e), p2);
        },
        Ok(Token::Identifier(name)) => name,
        Ok(other) => {
            return (Err(ParserError::UnexpectedToken { expected: owned("identifier"), found: Found::Token(other) }), p2);
        },
    };
    let (x, p3) = expect(toks, p2, &Token::LBrace);
    if let Err(e) = x {
        return (Err(e), p3);
    }
    let empty: Vec<(String, Option<Vec<StructField>>)> = Vec::new();
    assert(variants_view(empty@) =~= Seq::empty());
    let (vr, p4) = variants_from(toks, p3, empty);
    let variants = match vr {
        Err(e) => {
            return (Err(e), p4);
        },
        Ok(vs) => vs,
    };
    let (c, p5) = advance(toks, p4);
    if let Err(e) = c {
        return (Err(e), p5);
    }
    let p6 = if at(toks, p5, &Token::Semicolon) { p5 + 1 } else { p5 };
    (Ok(Statement::Enum { name, variants }), p6)
}

/// Parses an import; see `import_at`.
fn import_from(toks: &Vec<Token>, pos: usize) -> (r: (Result<Statement, ParserError>, usize))
    requires
        pos <= toks@.len(),
    ensures
        (lift_stmt(r.0), r.1 as int) == import_at(toks@, pos as int),
        pos <= r.1 <= toks@.len(),
{
    proof {
        reveal_strlit("identifier");
        reveal_strlit("string literal");
    }
    let (a, p1) = advance(toks, pos);
    if let Err(e) = a {
        return (Err(e), p1);
    }
    let (b, p2) = advance(toks, p1);
    let path = match b {
        Err(e) => {
            return (Err(e), p2);
        },
        Ok(Token::String(path)) => path,
        Ok(other) => {
            return (Err(ParserError::UnexpectedToken { expected: owned("string literal"), found: Found::Token(other) }), p2);
        },
    };
    if at(toks, p2, &Token::As) {
        let (c, p3) = advance(toks, p2 + 1);
        match c {
            Err(e) => (Err(e), p3),
            Ok(Token::Identifier(alias)) => {
                let p4 = if at(toks, p3, &Token::Semicolon) { p3 + 1 } else { p3 };
                (Ok(Statement::ImportAs(path, alias)), p4)
            },
            Ok(other) => (Err(ParserError::UnexpectedToken { expected: owned("identifier"), found: Found::Token(other) }), p3),
        }
    } else {
        let p4 = if at(toks, p2, &Token::Semicolon) { p2 + 1 } else { p2 };
        (Ok(Statement::Import(path)), p4)
    }
}

/// The parser's state: the tokens and the position of the next one.
pub struct Parser {
    tokens: Vec<Token>,
    current: usize,
}

impl Parser {
    /// The tokens.
    pub closed spec fn tokens(&self) -> Seq<Token> {
        self.tokens@
    }

    /// The position of the next token.
    pub closed spec fn current(&self) -> int {
        self.current as int
    }

    /// The position is within the tokens.
    pub closed spec fn wf(&self) -> bool {
        self.current <= self.tokens@.len()
    }

    /// A parser at the first of `tokens`.
    pub fn new(tokens: Vec<Token>) -> (r: Parser)
        ensures
            r.wf(),
            r.tokens() == tokens@,
            r.current() == 0,
    {
        Parser { tokens, current: 0 }
    }

    /// Parses the whole program from the current position: statements up
    /// to the end of the input; see `program_at`.
    pub fn parse(&mut self) -> (r: Result<Program, ParserError>)
        requires
            old(self).wf(),
        ensures
            final(self).wf(),
            final(self).tokens() == old(self).tokens(),
            (match r {
                Ok(p) => Ok(svs(p.statements@)),
                Err(e) => Err(fault(e)),
            }, final(self).current()) == program_at(old(self).tokens(), old(self).current(), Seq::empty()),
    {
        proof {
            lemma_empty_views();
        }
        let (r, p) = program_from(&self.tokens, self.current, Vec::new());
        self.current = p;
        match r {
            Ok(statements) => Ok(Program { statements }),
            Err(e) => Err(e),
        }
    }

    /// Parses one statement at the current position; see `statement_at`.
    pub fn parse_statement(&mut self) -> (r: Result<Statement, ParserError>)
        requires
            old(self).wf(),
        ensures
            final(self).wf(),
            final(self).tokens() == old(self).tokens(),
            (lift_stmt(r), final(self).current()) == statement_at(old(self).tokens(), old(self).current()),
    {
        let (r, p) = statement_from(&self.tokens, self.current);
        self.current = p;
        r
    }

    /// Parses an expression at the current position; see `expression_at`.
    pub fn parse_expression(&mut self) -> (r: Result<Expression, ParserError>)
        requires
            old(self).wf(),
        ensures
            final(self).wf(),
            final(self).tokens() == old(self).tokens(),
            (lift_expr(r), final(self).current()) == expression_at(old(self).tokens(), old(self).current()),
    {
        let (r, p) = expression_from(&self.tokens, self.current);
        self.current = p;
        r
    }

    /// Parses a primary expression and its postfix operators at the current
    /// position; see `primary_at`.
    pub fn parse_primary(&mut self) -> (r: Result<Expression, ParserError>)
        requires
            old(self).wf(),
        ensures
            final(self).wf(),
            final(self).tokens() == old(self).tokens(),
            (lift_expr(r), final(self).current()) == primary_at(old(self).tokens(), old(self).current()),
    {
        let (r, p) = primary_from(&self.tokens, self.current);
        self.current = p;
        r
    }

    /// Parses postfix operators after `expr` at the current position; see
    /// `postfix_at`.
    pub fn parse_postfix(&mut self, expr: Expression) -> (r: Result<Expression, ParserError>)
        requires
            old(self).wf(),
        ensures
            final(self).wf(),
            final(self).tokens() == old(self).tokens(),
            (lift_expr(r), final(self).current()) == postfix_at(old(self).tokens(), old(self).current(), ev(expr)),
    {
        let (r, p) = postfix_from(&self.tokens, self.current, expr);
        self.current = p;
        r
    }

    /// Parses a type at the current position and moves past it; see
    /// `type_at`.
    pub fn parse_type(&mut self) -> (r: Result<String, ParserError>)
        requires
            old(self).wf(),
        ensures
            final(self).wf(),
            final(self).tokens() == old(self).tokens(),
            (lift_text(r), final(self).current()) == type_at(old(self).tokens(), old(self).current()),
    {
        let (r, p) = type_from(&self.tokens, self.current);
        self.current = p;
        r
    }

    /// Parses `struct Name { name: type, ... }` at the current position; see
    /// `struct_at`.
    pub fn parse_struct_statement(&mut self) -> (r: Result<Statement, ParserError>)
        requires
            old(self).wf(),
        ensures
            final(self).wf(),
            final(self).tokens() == old(self).tokens(),
            (lift_stmt(r), final(self).current()) == struct_at(old(self).tokens(), old(self).current()),
    {
        let (r, p) = struct_from(&self.tokens, self.current);
        self.current = p;
        r
    }

    /// Parses `enum Name { Variant(name: type, ...), ... }` at the current
    /// position; see `enum_at`.
    pub fn parse_enum_statement(&mut self) -> (r: Result<Statement, ParserError>)
        requires
            old(self).wf(),
        ensures
            final(self).wf(),
            final(self).tokens() == old(self).tokens(),
            (lift_stmt(r), final(self).current()) == enum_at(old(self).tokens(), old(self).current()),
    {
        let (r, p) = enum_from(&self.tokens, self.current);
        self.current = p;
        r
    }

    /// Parses `import "path"` or `import "path" as alias` at the current
    /// position; see `import_at`.
    pub fn parse_import_statement(&mut self) -> (r: Result<Statement, ParserError>)
        requires
            old(self).wf(),
        ensures
            final(self).wf(),
            final(self).tokens() == old(self).tokens(),
            (lift_stmt(r), final(self).current()) == import_at(old(self).tokens(), old(self).current()),
    {
        let (r, p) = import_from(&self.tokens, self.current);
        self.current = p;
        r
    }
}


// ---------------------------------------------------------------------------
// Statements and expressions.
// ---------------------------------------------------------------------------

/// The operator an assignment token stands for: `=` for none, a compound
/// assignment for its arithmetic operator.
pub open spec fn assign_op(t: Token) -> Option<Option<BinaryOperator>> {
    match t {
        Token::Assign => Some(None),
        Token::AddAssign => Some(Some(BinaryOperator::Add)),
        Token::SubAssign => Some(Some(BinaryOperator::Sub)),
        Token::MulAssign => Some(Some(BinaryOperator::Mul)),
        Token::DivAssign => Some(Some(BinaryOperator::Div)),
        Token::ModAssign => Some(Some(BinaryOperator::Mod)),
        _ => None,
    }
}

/// The binary operator a token stands for at a precedence level: 0 `||`,
/// 1 `&&`, 2 equality, 3 comparison, 5 `+ -`, 6 `* / %`.
pub open spec fn level_op(lvl: int, t: Token) -> Option<BinaryOperator> {
    if lvl == 0 {
        if t == Token::Or { Some(BinaryOperator::Or) } else { None }
    } else if lvl == 1 {
        if t == Token::And { Some(BinaryOperator::And) } else { None }
    } else if lvl == 2 {
        match t { Token::Eq => Some(BinaryOperator::Eq), Token::Ne => Some(BinaryOperator::Ne), _ => None }
    } else if lvl == 3 {
        match t {
            Token::Lt => Some(BinaryOperator::Lt),
            Token::Le => Some(BinaryOperator::Le),
            Token::Gt => Some(BinaryOperator::Gt),
            Token::Ge => Some(BinaryOperator::Ge),
            _ => None,
        }
    } else if lvl == 5 {
        match t { Token::Plus => Some(BinaryOperator::Add), Token::Minus => Some(BinaryOperator::Sub), _ => None }
    } else if lvl == 6 {
        match t {
            Token::Star => Some(BinaryOperator::Mul),
            Token::Slash => Some(BinaryOperator::Div),
            Token::Percent => Some(BinaryOperator::Mod),
            _ => None,
        }
    } else {
        None
    }
}

/// The prefix operator a token stands for.
pub open spec fn unary_op(t: Token) -> Option<UnaryOperator> {
    match t {
        Token::Not => Some(UnaryOperator::Not),
        Token::Minus => Some(UnaryOperator::Neg),
        Token::Ampersand => Some(UnaryOperator::Ref),
        Token::Star => Some(UnaryOperator::Deref),
        _ => None,
    }
}

/// The literal a token writes, for the tokens a pattern may be.
pub open spec fn plain_literal(t: Token) -> Option<LitV> {
    match t {
        Token::Integer(n) => Some(LitV::Integer(n)),
        Token::Float(b) => Some(LitV::Float(b)),
        Token::String(s) => Some(LitV::Str(s@)),
        Token::True | Token::TrueZh => Some(LitV::Boolean(true)),
        Token::False | Token::FalseZh => Some(LitV::Boolean(false)),
        Token::Null => Some(LitV::Null),
        _ => None,
    }
}

/// `(` or `)`.
pub open spec fn is_paren(c: char) -> bool {
    c == '(' || c == ')'
}

/// `s` without its leading parentheses.
pub open spec fn strip_parens_start(s: Seq<char>) -> Seq<char>
    decreases s.len(),
{
    if s.len() > 0 && is_paren(s[0]) { strip_parens_start(s.drop_first()) } else { s }
}

/// `s` without its trailing parentheses.
pub open spec fn strip_parens_end(s: Seq<char>) -> Seq<char>
    decreases s.len(),
{
    if s.len() > 0 && is_paren(s.last()) { strip_parens_end(s.drop_last()) } else { s }
}

/// The literal a unit token's text `(value, unit)` writes: the value's text
/// must read as a floating-point number. The error is the message.
pub open spec fn unit_literal(s: Seq<char>) -> Result<LitV, Seq<char>> {
    let parts = split_char(strip_parens_end(strip_parens_start(s)), ',');
    if parts.len() == 2 {
        let v = trim_spec(parts[0]);
        let u = trim_spec(parts[1]);
        if float_text(v) { Ok(LitV::Unit(v, u)) } else { Err("Invalid unit literal: "@ + u) }
    } else {
        Err("Invalid unit literal: "@ + s)
    }
}

/// A parameter by its texts.
pub type ParamV = (Seq<char>, Option<Seq<char>>, Option<ExprV>);

/// Lambda parameters `name` or `name: type`, separated by commas; appended
/// to `acc`.
pub open spec fn lparams_at(toks: Seq<Token>, pos: int, acc: Seq<ParamV>) -> (Result<Seq<ParamV>, ParseFault>, int)
    decreases toks.len() - pos,
{
    if pos < 0 || pos > toks.len() {
        (Err(ParseFault::Eof), pos)
    } else {
        let p1 = advance_pos(toks, pos);
        match advance_tok(toks, pos) {
            Err(e) => (Err(e), p1),
            Ok(Token::Identifier(n)) => {
                let (tr, q) = if tok_at(toks, p1, Token::Colon) {
                    let (r, q) = type_at(toks, p1 + 1);
                    (match r { Ok(t) => Ok(Some(t)), Err(e) => Err(e) }, q)
                } else {
                    (Ok(None), p1)
                };
                match tr {
                    Err(e) => (Err(e), q),
                    Ok(ty) => {
                        let acc2 = acc.push((n@, ty, None));
                        if !tok_at(toks, q, Token::Comma) {
                            (Ok(acc2), q)
                        } else if !(pos <= q) {
                            (Err(ParseFault::Eof), q)
                        } else {
                            lparams_at(toks, q + 1, acc2)
                        }
                    },
                }
            },
            Ok(_) => (match peek_at(toks, p1) {
                Ok(f) => Err(ParseFault::Unexpected("parameter name"@, FoundV::Tok(f))),
                Err(e) => Err(e),
            }, p1),
        }
    }
}

/// More `::name` parts of a path after `path`.
pub open spec fn path_loop(toks: Seq<Token>, pos: int, path: Seq<char>) -> (Result<Seq<char>, ParseFault>, int)
    decreases toks.len() - pos,
{
    if pos < 0 || pos > toks.len() {
        (Err(ParseFault::Eof), pos)
    } else if tok_at(toks, pos, Token::Colon) && tok_at(toks, pos + 1, Token::Colon) {
        let p3 = advance_pos(toks, pos + 2);
        match advance_tok(toks, pos + 2) {
            Err(e) => (Err(e), p3),
            Ok(t) => match variant_name(t) {
                Some(n) => path_loop(toks, p3, path + "::"@ + n),
                None => (Err(ParseFault::Unexpected("identifier"@, FoundV::Tok(t))), p3),
            },
        }
    } else {
        (Ok(path), pos)
    }
}

/// The whole program: statements up to the end of the input, appended to
/// `acc`.
pub open spec fn program_at(toks: Seq<Token>, pos: int, acc: Seq<StmtV>) -> (Result<Seq<StmtV>, ParseFault>, int)
    decreases toks.len() - pos, 44int,
{
    if pos < 0 || pos > toks.len() {
        (Err(ParseFault::Eof), pos)
    } else if pos >= toks.len() {
        (Ok(acc), pos)
    } else {
        let (r, p) = statement_at(toks, pos);
        match r {
            Err(e) => (Err(e), p),
            Ok(s) => if !(pos < p <= toks.len()) { (Err(ParseFault::Eof), p) } else { program_at(toks, p, acc.push(s)) },
        }
    }
}

/// Statements up to a `}`, appended to `acc`.
pub open spec fn block_at(toks: Seq<Token>, pos: int, acc: Seq<StmtV>) -> (Result<Seq<StmtV>, ParseFault>, int)
    decreases toks.len() - pos, 42int,
{
    if pos < 0 || pos > toks.len() {
        (Err(ParseFault::Eof), pos)
    } else if tok_at(toks, pos, Token::RBrace) {
        (Ok(acc), pos)
    } else {
        let (r, p) = statement_at(toks, pos);
        match r {
            Err(e) => (Err(e), p),
            Ok(s) => if !(pos < p <= toks.len()) { (Err(ParseFault::Eof), p) } else { block_at(toks, p, acc.push(s)) },
        }
    }
}

/// A statement result from an expression result.
pub open spec fn as_stmt(r: (Result<ExprV, ParseFault>, int)) -> (Result<StmtV, ParseFault>, int) {
    (match r.0 { Ok(e) => Ok(StmtV::Expression(e)), Err(e) => Err(e) }, r.1)
}

/// One statement, chosen by its first token.
pub open spec fn statement_at(toks: Seq<Token>, pos: int) -> (Result<StmtV, ParseFault>, int)
    decreases toks.len() - pos, 40int,
{
    if pos < 0 || pos > toks.len() {
        (Err(ParseFault::Eof), pos)
    } else {
        match peek_at(toks, pos) {
            Err(e) => (Err(e), pos),
            Ok(t) => if t is Let || t is Var || t is LetZh || t is VarZh {
                let_at(toks, pos)
            } else if t is Fn {
                function_at(toks, pos)
            } else if t is Struct || t is StructZh {
                struct_at(toks, pos)
            } else if t is Enum || t is EnumZh {
                enum_at(toks, pos)
            } else if t is Group || t is GroupZh {
                group_at(toks, pos)
            } else if t is Return || t is ReturnZh {
                return_at(toks, pos)
            } else if t is If || t is IfZh || t is Elif || t is ElifZh {
                as_stmt(if_at(toks, pos + 1))
            } else if t is While || t is WhileZh || t is LoopZh {
                while_at(toks, pos)
            } else if t is For {
                for_at(toks, pos)
            } else if t is Import {
                import_at(toks, pos)
            } else if t is Match || t is MatchZh {
                as_stmt(match_at(toks, pos + 1))
            } else if t is Else || t is ElseZh {
                (Err(ParseFault::Unexpected("if or elif statement"@, FoundV::Tok(t))), pos)
            } else {
                let (r, p) = expression_at(toks, pos);
                match r {
                    Err(e) => (Err(e), p),
                    Ok(e) => (Ok(StmtV::Expression(e)), skip_opt(toks, p, Token::Semicolon)),
                }
            },
        }
    }
}

/// `let`/`var` (or `let mut`), a name, an optional `: type`, `=`, a value
/// and an optional `;`.
pub open spec fn let_at(toks: Seq<Token>, pos: int) -> (Result<StmtV, ParseFault>, int)
    decreases toks.len() - pos, 38int,
{
    if pos < 0 || pos > toks.len() {
        (Err(ParseFault::Eof), pos)
    } else {
        let p1 = advance_pos(toks, pos);
        match advance_tok(toks, pos) {
            Err(e) => (Err(e), p1),
            Ok(tok) => {
                let m0 = tok is Var || tok is VarZh;
                let mutable = m0 || tok_at(toks, p1, Token::Mut);
                let p2 = if !m0 && tok_at(toks, p1, Token::Mut) { p1 + 1 } else { p1 };
                let p3 = advance_pos(toks, p2);
                match advance_tok(toks, p2) {
                    Err(e) => (Err(e), p3),
                    Ok(Token::Identifier(name)) => {
                        let (tr, p4) = if tok_at(toks, p3, Token::Colon) {
                            let (r, q) = type_at(toks, p3 + 1);
                            (match r { Ok(t) => Ok(Some(t)), Err(e) => Err(e) }, q)
                        } else {
                            (Ok(None), p3)
                        };
                        match tr {
                            Err(e) => (Err(e), p4),
                            Ok(ty) => {
                                let (x, p5) = expect_at(toks, p4, Token::Assign);
                                match x {
                                    Err(e) => (Err(e), p5),
                                    Ok(_) => if !(pos <= p5 <= toks.len()) {
                                        (Err(ParseFault::Eof), p5)
                                    } else {
                                        let (v, p6) = expression_at(toks, p5);
                                        match v {
                                            Err(e) => (Err(e), p6),
                                            Ok(value) => (Ok(StmtV::Let(mutable, name@, ty, value)), skip_opt(toks, p6, Token::Semicolon)),
                                        }
                                    },
                                }
                            },
                        }
                    },
                    Ok(other) => (Err(ParseFault::Unexpected("identifier"@, FoundV::Tok(other))), p3),
                }
            },
        }
    }
}

/// The body of a function: `= expression`, `{ statements }` or
/// `: statement`.
pub open spec fn fn_body_at(toks: Seq<Token>, pos: int) -> (Result<ExprV, ParseFault>, int)
    decreases toks.len() - pos, 39int,
{
    if pos < 0 || pos > toks.len() {
        (Err(ParseFault::Eof), pos)
    } else if tok_at(toks, pos, Token::Assign) {
        expression_at(toks, pos + 1)
    } else if tok_at(toks, pos, Token::LBrace) {
        let (r, q) = block_at(toks, pos + 1, Seq::empty());
        match r {
            Err(e) => (Err(e), q),
            Ok(stmts) => {
                let q2 = advance_pos(toks, q);
                match advance_tok(toks, q) {
                    Err(e) => (Err(e), q2),
                    Ok(_) => (Ok(ExprV::Block(stmts)), q2),
                }
            },
        }
    } else if tok_at(toks, pos, Token::Colon) {
        let (r, q) = statement_at(toks, pos + 1);
        (match r { Ok(s) => Ok(ExprV::Block(seq![s])), Err(e) => Err(e) }, q)
    } else {
        (match peek_at(toks, pos) {
            Ok(f) => Err(ParseFault::Unexpected("Assign, LBrace or Colon"@, FoundV::Tok(f))),
            Err(e) => Err(e),
        }, pos)
    }
}

/// An optional `@kernel`, `fn`, a name, `( parameters )`, an optional
/// `-> type`, a body and an optional `;`.
pub open spec fn function_at(toks: Seq<Token>, pos: int) -> (Result<StmtV, ParseFault>, int)
    decreases toks.len() - pos, 38int,
{
    if pos < 0 || pos > toks.len() {
        (Err(ParseFault::Eof), pos)
    } else {
        let kernel = tok_at(toks, pos, Token::KernelAttr);
        let p0 = skip_opt(toks, pos, Token::KernelAttr);
        let p1 = advance_pos(toks, p0);
        match advance_tok(toks, p0) {
            Err(e) => (Err(e), p1),
            Ok(_) => {
                let p2 = advance_pos(toks, p1);
                match advance_tok(toks, p1) {
                    Err(e) => (Err(e), p2),
                    Ok(Token::Identifier(name)) => {
                        let (x, p3) = expect_at(toks, p2, Token::LParen);
                        match x {
                            Err(e) => (Err(e), p3),
                            Ok(_) => {
                                let (pr, p4) = params_at(toks, p3);
                                match pr {
                                    Err(e) => (Err(e), p4),
                                    Ok(ps) => {
                                        let (y, p5) = expect_at(toks, p4, Token::RParen);
                                        match y {
                                            Err(e) => (Err(e), p5),
                                            Ok(_) => {
                                                let (rr, p6) = if tok_at(toks, p5, Token::Arrow) {
                                                    let (r, q) = type_at(toks, p5 + 1);
                                                    (match r { Ok(t) => Ok(Some(t)), Err(e) => Err(e) }, q)
                                                } else {
                                                    (Ok(None), p5)
                                                };
                                                match rr {
                                                    Err(e) => (Err(e), p6),
                                                    Ok(rt) => if !(pos < p6 <= toks.len()) {
                                                        (Err(ParseFault::Eof), p6)
                                                    } else {
                                                        let (br, p7) = fn_body_at(toks, p6);
                                                        match br {
                                                            Err(e) => (Err(e), p7),
                                                            Ok(body) => (Ok(StmtV::Function(name@, ps, rt, body, kernel)), skip_opt(toks, p7, Token::Semicolon)),
                                                        }
                                                    },
                                                }
                                            },
                                        }
                                    },
                                }
                            },
                        }
                    },
                    Ok(other) => (Err(ParseFault::Unexpected("identifier"@, FoundV::Tok(other))), p2),
                }
            },
        }
    }
}

/// Function parameters up to a `)`: none, or a comma-separated list.
pub open spec fn params_at(toks: Seq<Token>, pos: int) -> (Result<Seq<ParamV>, ParseFault>, int)
    decreases toks.len() - pos, 37int,
{
    if pos < 0 || pos > toks.len() {
        (Err(ParseFault::Eof), pos)
    } else if tok_at(toks, pos, Token::RParen) {
        (Ok(Seq::empty()), pos)
    } else {
        params_loop(toks, pos, Seq::empty())
    }
}

/// Parameters `name`, `name: type`, `name = default` or `name: type =
/// default`, separated by commas; appended to `acc`.
pub open spec fn params_loop(toks: Seq<Token>, pos: int, acc: Seq<ParamV>) -> (Result<Seq<ParamV>, ParseFault>, int)
    decreases toks.len() - pos, 36int,
{
    if pos < 0 || pos > toks.len() {
        (Err(ParseFault::Eof), pos)
    } else {
        let p1 = advance_pos(toks, pos);
        match advance_tok(toks, pos) {
            Err(e) => (Err(e), p1),
            Ok(Token::Identifier(n)) => {
                let (tr, q) = if tok_at(toks, p1, Token::Colon) {
                    let (r, q) = type_at(toks, p1 + 1);
                    (match r { Ok(t) => Ok(Some(t)), Err(e) => Err(e) }, q)
                } else {
                    (Ok(None), p1)
                };
                match tr {
                    Err(e) => (Err(e), q),
                    Ok(ty) => if !(pos <= q <= toks.len()) {
                        (Err(ParseFault::Eof), q)
                    } else {
                        let (dr, q2) = if tok_at(toks, q, Token::Assign) {
                            let (r, q2) = expression_at(toks, q + 1);
                            (match r { Ok(d) => Ok(Some(d)), Err(e) => Err(e) }, q2)
                        } else {
                            (Ok(None), q)
                        };
                        match dr {
                            Err(e) => (Err(e), q2),
                            Ok(d) => {
                                let acc2 = acc.push((n@, ty, d));
                                if !tok_at(toks, q2, Token::Comma) {
                                    (Ok(acc2), q2)
                                } else if !(pos <= q2) {
                                    (Err(ParseFault::Eof), q2)
                                } else {
                                    params_loop(toks, q2 + 1, acc2)
                                }
                            },
                        }
                    },
                }
            },
            Ok(other) => (Err(ParseFault::Unexpected("identifier"@, FoundV::Tok(other))), p1),
        }
    }
}

/// `group Name { statements }` with an optional `;`.
pub open spec fn group_at(toks: Seq<Token>, pos: int) -> (Result<StmtV, ParseFault>, int)
    decreases toks.len() - pos, 38int,
{
    if pos < 0 || pos > toks.len() {
        (Err(ParseFault::Eof), pos)
    } else {
        let p1 = advance_pos(toks, pos);
        match advance_tok(toks, pos) {
            Err(e) => (Err(e), p1),
            Ok(_) => {
                let p2 = advance_pos(toks, p1);
                match advance_tok(toks, p1) {
                    Err(e) => (Err(e), p2),
                    Ok(Token::Identifier(name)) => {
                        let (x, p3) = expect_at(toks, p2, Token::LBrace);
                        match x {
                            Err(e) => (Err(e), p3),
                            Ok(_) => {
                                let (r, p4) = block_at(toks, p3, Seq::empty());
                                match r {
                                    Err(e) => (Err(e), p4),
                                    Ok(members) => {
                                        let p5 = advance_pos(toks, p4);
                                        match advance_tok(toks, p4) {
                                            Err(e) => (Err(e), p5),
                                            Ok(_) => (Ok(StmtV::Group(name@, members)), skip_opt(toks, p5, Token::Semicolon)),
                                        }
                                    },
                                }
                            },
                        }
                    },
                    Ok(other) => (Err(ParseFault::Unexpected("identifier"@, FoundV::Tok(other))), p2),
                }
            },
        }
    }
}

/// `return` with an optional value and an optional `;`.
pub open spec fn return_at(toks: Seq<Token>, pos: int) -> (Result<StmtV, ParseFault>, int)
    decreases toks.len() - pos, 38int,
{
    if pos < 0 || pos > toks.len() {
        (Err(ParseFault::Eof), pos)
    } else {
        let p1 = advance_pos(toks, pos);
        match advance_tok(toks, pos) {
            Err(e) => (Err(e), p1),
            Ok(tok) => if !(tok is Return || tok is ReturnZh) {
                (Err(ParseFault::Unexpected("return or \u{8fd4}\u{56de}"@, FoundV::Tok(tok))), p1)
            } else if !tok_at(toks, p1, Token::Semicolon) && p1 < toks.len() {
                let (r, q) = expression_at(toks, p1);
                match r {
                    Err(e) => (Err(e), q),
                    Ok(v) => (Ok(StmtV::Return(Some(v))), skip_opt(toks, q, Token::Semicolon)),
                }
            } else {
                (Ok(StmtV::Return(None)), skip_opt(toks, p1, Token::Semicolon))
            },
        }
    }
}

/// `while`, a condition, `:`, a body and an optional `;`.
pub open spec fn while_at(toks: Seq<Token>, pos: int) -> (Result<StmtV, ParseFault>, int)
    decreases toks.len() - pos, 38int,
{
    if pos < 0 || pos > toks.len() {
        (Err(ParseFault::Eof), pos)
    } else {
        let p1 = advance_pos(toks, pos);
        match advance_tok(toks, pos) {
            Err(e) => (Err(e), p1),
            Ok(tok) => if !(tok is While || tok is WhileZh || tok is LoopZh) {
                (Err(ParseFault::Unexpected("while, \u{5f53}, or \u{5faa}\u{73af}"@, FoundV::Tok(tok))), p1)
            } else {
                let (c, p2) = expression_at(toks, p1);
                match c {
                    Err(e) => (Err(e), p2),
                    Ok(cond) => {
                        let (x, p3) = expect_at(toks, p2, Token::Colon);
                        match x {
                            Err(e) => (Err(e), p3),
                            Ok(_) => if !(pos <= p3 <= toks.len()) {
                                (Err(ParseFault::Eof), p3)
                            } else {
                                let (b, p4) = expression_at(toks, p3);
                                match b {
                                    Err(e) => (Err(e), p4),
                                    Ok(body) => (Ok(StmtV::While(cond, body)), skip_opt(toks, p4, Token::Semicolon)),
                                }
                            },
                        }
                    },
                }
            },
        }
    }
}

/// `for`, a name, `in`, an expression, `:`, a body and an optional `;`.
pub open spec fn for_at(toks: Seq<Token>, pos: int) -> (Result<StmtV, ParseFault>, int)
    decreases toks.len() - pos, 38int,
{
    if pos < 0 || pos > toks.len() {
        (Err(ParseFault::Eof), pos)
    } else {
        let p1 = advance_pos(toks, pos);
        match advance_tok(toks, pos) {
            Err(e) => (Err(e), p1),
            Ok(_) => {
                let p2 = advance_pos(toks, p1);
                match advance_tok(toks, p1) {
                    Err(e) => (Err(e), p2),
                    Ok(Token::Identifier(pattern)) => {
                        let (x, p3) = expect_at(toks, p2, Token::In);
                        match x {
                            Err(e) => (Err(e), p3),
                            Ok(_) => {
                                let (i, p4) = expression_at(toks, p3);
                                match i {
                                    Err(e) => (Err(e), p4),
                                    Ok(in_expr) => {
                                        let (y, p5) = expect_at(toks, p4, Token::Colon);
                                        match y {
                                            Err(e) => (Err(e), p5),
                                            Ok(_) => if !(pos <= p5 <= toks.len()) {
                                                (Err(ParseFault::Eof), p5)
                                            } else {
                                                let (b, p6) = expression_at(toks, p5);
                                                match b {
                                                    Err(e) => (Err(e), p6),
                                                    Ok(body) => (Ok(StmtV::For(pattern@, in_expr, body)), skip_opt(toks, p6, Token::Semicolon)),
                                                }
                                            },
                                        }
                                    },
                                }
                            },
                        }
                    },
                    Ok(other) => (Err(ParseFault::Unexpected("identifier"@, FoundV::Tok(other))), p2),
                }
            },
        }
    }
}

/// An expression: an assignment.
pub open spec fn expression_at(toks: Seq<Token>, pos: int) -> (Result<ExprV, ParseFault>, int)
    decreases toks.len() - pos, 34int,
{
    if pos < 0 || pos > toks.len() {
        (Err(ParseFault::Eof), pos)
    } else {
        assignment_at(toks, pos)
    }
}

/// A logical-or expression, then optionally an assignment operator and the
/// (right-associative) value; a compound assignment `a op= b` is
/// `a = a op b`.
pub open spec fn assignment_at(toks: Seq<Token>, pos: int) -> (Result<ExprV, ParseFault>, int)
    decreases toks.len() - pos, 32int,
{
    if pos < 0 || pos > toks.len() {
        (Err(ParseFault::Eof), pos)
    } else {
        let (l, p1) = level_at(toks, pos, 0);
        match l {
            Err(e) => (Err(e), p1),
            Ok(left) => if !(pos <= p1 <= toks.len()) {
                (Err(ParseFault::Eof), p1)
            } else if p1 < toks.len() && assign_op(toks[p1]) is Some {
                let (r, p2) = assignment_at(toks, p1 + 1);
                match r {
                    Err(e) => (Err(e), p2),
                    Ok(right) => (Ok(match assign_op(toks[p1])->0 {
                        None => ExprV::Assign(Box::new(left), Box::new(right)),
                        Some(op) => ExprV::Assign(Box::new(left), Box::new(ExprV::BinaryOp(Box::new(left), op, Box::new(right)))),
                    }), p2),
                }
            } else {
                (Ok(left), p1)
            },
        }
    }
}

/// A precedence level is 0 `||`, 1 `&&`, 2 equality, 3 comparison, 5 `+ -`
/// or 6 `* / %`.
pub open spec fn is_level(lvl: int) -> bool {
    0 <= lvl <= 6 && lvl != 4
}

/// The operand of a precedence level `lvl`: the next level, a range below
/// comparison, a cast below the multiplicative level.
pub open spec fn next_level(lvl: int) -> int {
    if lvl == 3 { 4 } else { lvl + 1 }
}

/// Operands of level `lvl` joined left to right by its operators.
pub open spec fn level_at(toks: Seq<Token>, pos: int, lvl: int) -> (Result<ExprV, ParseFault>, int)
    decreases toks.len() - pos, 30 - 2 * lvl,
{
    if pos < 0 || pos > toks.len() || !is_level(lvl) {
        (Err(ParseFault::Eof), pos)
    } else {
        let (l, p1) = if lvl == 3 {
            range_at(toks, pos)
        } else if lvl == 6 {
            cast_at(toks, pos)
        } else {
            level_at(toks, pos, lvl + 1)
        };
        match l {
            Err(e) => (Err(e), p1),
            Ok(left) => if !(pos <= p1 <= toks.len()) {
                (Err(ParseFault::Eof), p1)
            } else {
                level_loop(toks, p1, lvl, left)
            },
        }
    }
}

/// More operators of level `lvl` and their operands after `left`.
pub open spec fn level_loop(toks: Seq<Token>, pos: int, lvl: int, left: ExprV) -> (Result<ExprV, ParseFault>, int)
    decreases toks.len() - pos, 29 - 2 * lvl,
{
    if pos < 0 || pos > toks.len() || !is_level(lvl) {
        (Err(ParseFault::Eof), pos)
    } else if pos < toks.len() && level_op(lvl, toks[pos]) is Some {
        let (r, p1) = if lvl == 3 {
            range_at(toks, pos + 1)
        } else if lvl == 6 {
            cast_at(toks, pos + 1)
        } else {
            level_at(toks, pos + 1, lvl + 1)
        };
        match r {
            Err(e) => (Err(e), p1),
            Ok(right) => if !(pos < p1 <= toks.len()) {
                (Err(ParseFault::Eof), p1)
            } else {
                level_loop(toks, p1, lvl, ExprV::BinaryOp(Box::new(left), level_op(lvl, toks[pos])->0, Box::new(right)))
            },
        }
    } else {
        (Ok(left), pos)
    }
}

/// An additive expression, then optionally `..` or `..=` and another.
pub open spec fn range_at(toks: Seq<Token>, pos: int) -> (Result<ExprV, ParseFault>, int)
    decreases toks.len() - pos, 22int,
{
    if pos < 0 || pos > toks.len() {
        (Err(ParseFault::Eof), pos)
    } else {
        let (l, p1) = level_at(toks, pos, 5);
        match l {
            Err(e) => (Err(e), p1),
            Ok(left) => if !(pos <= p1 <= toks.len()) {
                (Err(ParseFault::Eof), p1)
            } else if tok_at(toks, p1, Token::Range) || tok_at(toks, p1, Token::RangeInclusive) {
                let (r, p2) = level_at(toks, p1 + 1, 5);
                match r {
                    Err(e) => (Err(e), p2),
                    Ok(right) => (Ok(ExprV::Range(Box::new(left), Box::new(right), toks[p1] == Token::RangeInclusive)), p2),
                }
            } else {
                (Ok(left), p1)
            },
        }
    }
}

/// A prefix expression followed by any number of `as type`; a cast is a
/// call of `as` with the value and the type's name.
pub open spec fn cast_at(toks: Seq<Token>, pos: int) -> (Result<ExprV, ParseFault>, int)
    decreases toks.len() - pos, 16int,
{
    if pos < 0 || pos > toks.len() {
        (Err(ParseFault::Eof), pos)
    } else {
        let (u, p1) = unary_at(toks, pos);
        match u {
            Err(e) => (Err(e), p1),
            Ok(e) => if !(pos <= p1 <= toks.len()) { (Err(ParseFault::Eof), p1) } else { cast_loop(toks, p1, e) },
        }
    }
}

/// Casts `as type` after `e`.
pub open spec fn cast_loop(toks: Seq<Token>, pos: int, e: ExprV) -> (Result<ExprV, ParseFault>, int)
    decreases toks.len() - pos, 15int,
{
    if pos < 0 || pos > toks.len() {
        (Err(ParseFault::Eof), pos)
    } else if tok_at(toks, pos, Token::As) {
        let (t, p1) = type_at(toks, pos + 1);
        match t {
            Err(err) => (Err(err), p1),
            Ok(ty) => if !(pos < p1 <= toks.len()) {
                (Err(ParseFault::Eof), p1)
            } else {
                cast_loop(toks, p1, ExprV::Call(Box::new(ExprV::Identifier("as"@)), seq![e, ExprV::Identifier(ty)]))
            },
        }
    } else {
        (Ok(e), pos)
    }
}

/// Prefix operators `!`, `-`, `&`, `*`, then a primary expression.
pub open spec fn unary_at(toks: Seq<Token>, pos: int) -> (Result<ExprV, ParseFault>, int)
    decreases toks.len() - pos, 14int,
{
    if pos < 0 || pos > toks.len() {
        (Err(ParseFault::Eof), pos)
    } else if pos < toks.len() && unary_op(toks[pos]) is Some {
        let (r, p1) = unary_at(toks, pos + 1);
        match r {
            Err(e) => (Err(e), p1),
            Ok(e) => (Ok(ExprV::UnaryOp(unary_op(toks[pos])->0, Box::new(e))), p1),
        }
    } else {
        primary_at(toks, pos)
    }
}

/// The expression a primary starts with, before any postfix operator; see
/// `primary_at`.
pub open spec fn primary_head(toks: Seq<Token>, pos: int) -> (Result<ExprV, ParseFault>, int)
    decreases toks.len() - pos, 12int,
{
    if pos < 0 || pos > toks.len() {
        (Err(ParseFault::Eof), pos)
    } else {
        match peek_at(toks, pos) {
            Err(e) => (Err(e), pos),
            Ok(tok) => match tok {
                Token::UnitLiteral(s) => (match unit_literal(s@) {
                    Ok(l) => Ok(ExprV::Literal(l)),
                    Err(m) => Err(ParseFault::Invalid(m)),
                }, pos + 1),
                Token::Print | Token::PrintZh => (Ok(ExprV::Identifier("print"@)), pos + 1),
                Token::Println | Token::PrintlnZh => (Ok(ExprV::Identifier("println"@)), pos + 1),
                Token::LBrace => {
                    let (r, q) = block_at(toks, pos + 1, Seq::empty());
                    match r {
                        Err(e) => (Err(e), q),
                        Ok(stmts) => {
                            let q2 = advance_pos(toks, q);
                            match advance_tok(toks, q) {
                                Err(e) => (Err(e), q2),
                                Ok(_) => (Ok(ExprV::Block(stmts)), q2),
                            }
                        },
                    }
                },
                Token::LBracket => {
                    let (r, q) = if tok_at(toks, pos + 1, Token::RBracket) {
                        (Ok(Seq::empty()), pos + 1)
                    } else {
                        exprs_at(toks, pos + 1, Seq::empty())
                    };
                    match r {
                        Err(e) => (Err(e), q),
                        Ok(items) => {
                            let (x, q2) = expect_at(toks, q, Token::RBracket);
                            match x {
                                Err(e) => (Err(e), q2),
                                Ok(_) => (Ok(ExprV::Array(items)), q2),
                            }
                        },
                    }
                },
                Token::Return => if !tok_at(toks, pos + 1, Token::Semicolon) && pos + 1 < toks.len() && !tok_at(toks, pos + 1, Token::RBrace) {
                    let (r, q) = expression_at(toks, pos + 1);
                    match r {
                        Err(e) => (Err(e), q),
                        Ok(v) => (Ok(ExprV::Block(seq![StmtV::Return(Some(v))])), q),
                    }
                } else {
                    (Ok(ExprV::Block(seq![StmtV::Return(None)])), pos + 1)
                },
                Token::Identifier(name) => if tok_at(toks, pos + 1, Token::Colon) && tok_at(toks, pos + 2, Token::Colon) {
                    path_at(toks, pos)
                } else {
                    (Ok(ExprV::Identifier(name@)), pos + 1)
                },
                Token::LParen => paren_at(toks, pos + 1),
                _ => match plain_literal(tok) {
                    Some(l) => (Ok(ExprV::Literal(l)), pos + 1),
                    None => (Err(ParseFault::Unexpected("expression"@, FoundV::Tok(tok))), pos),
                },
            },
        }
    }
}

/// What follows a `(` in a primary expression: `() => body`, `()`,
/// `(params) => body`, `(params)` without an arrow, or a parenthesised
/// expression.
pub open spec fn paren_at(toks: Seq<Token>, pos: int) -> (Result<ExprV, ParseFault>, int)
    decreases toks.len() - pos, 35int,
{
    if pos < 0 || pos > toks.len() {
        (Err(ParseFault::Eof), pos)
    } else if tok_at(toks, pos, Token::RParen) {
        if tok_at(toks, pos + 1, Token::FatArrow) {
            let (b, q) = expression_at(toks, pos + 2);
            (match b { Ok(body) => Ok(ExprV::Lambda(Seq::empty(), Box::new(body))), Err(e) => Err(e) }, q)
        } else {
            (Ok(ExprV::Identifier("()"@)), pos + 1)
        }
    } else {
        match peek_at(toks, pos) {
            Err(e) => (Err(e), pos),
            Ok(nt) => if nt is Identifier || nt is Colon {
                let (pr, q) = lparams_at(toks, pos, Seq::empty());
                match pr {
                    Err(e) => (Err(e), q),
                    Ok(ps) => if !(pos <= q <= toks.len()) {
                        (Err(ParseFault::Eof), q)
                    } else {
                        let (x, q2) = expect_at(toks, q, Token::RParen);
                        match x {
                            Err(e) => (Err(e), q2),
                            Ok(_) => if tok_at(toks, q2, Token::FatArrow) {
                                let (b, q3) = expression_at(toks, q2 + 1);
                                (match b { Ok(body) => Ok(ExprV::Lambda(ps, Box::new(body))), Err(e) => Err(e) }, q3)
                            } else {
                                (Ok(ExprV::Identifier("("@)), q2)
                            },
                        }
                    },
                }
            } else {
                let (r, q) = expression_at(toks, pos);
                match r {
                    Err(e) => (Err(e), q),
                    Ok(e) => {
                        let (x, q2) = expect_at(toks, q, Token::RParen);
                        (match x { Ok(_) => Ok(e), Err(err) => Err(err) }, q2)
                    },
                }
            },
        }
    }
}

/// A primary expression and its postfix operators.
pub open spec fn primary_at(toks: Seq<Token>, pos: int) -> (Result<ExprV, ParseFault>, int)
    decreases toks.len() - pos, 13int,
{
    if pos < 0 || pos > toks.len() {
        (Err(ParseFault::Eof), pos)
    } else {
        let (r, p) = primary_head(toks, pos);
        match r {
            Err(e) => (Err(e), p),
            Ok(e) => if !(pos <= p <= toks.len()) { (Err(ParseFault::Eof), p) } else { postfix_at(toks, p, e) },
        }
    }
}

/// A path `name::name::...` and its postfix operators.
pub open spec fn path_at(toks: Seq<Token>, pos: int) -> (Result<ExprV, ParseFault>, int)
    decreases toks.len() - pos, 10int,
{
    if pos < 0 || pos > toks.len() {
        (Err(ParseFault::Eof), pos)
    } else {
        match peek_at(toks, pos) {
            Err(e) => (Err(e), pos),
            Ok(Token::Identifier(name)) => {
                let (r, p2) = path_loop(toks, pos + 1, name@);
                match r {
                    Err(e) => (Err(e), p2),
                    Ok(path) => if !(pos <= p2 <= toks.len()) {
                        (Err(ParseFault::Eof), p2)
                    } else {
                        postfix_at(toks, p2, ExprV::Identifier(path))
                    },
                }
            },
            Ok(tok) => (Err(ParseFault::Unexpected("identifier"@, FoundV::Tok(tok))), pos),
        }
    }
}

/// Calls `(args)`, indexing `[i]`, field access `.name` and struct
/// literals `{ name: value, ... }` after `e`.
pub open spec fn postfix_at(toks: Seq<Token>, pos: int, e: ExprV) -> (Result<ExprV, ParseFault>, int)
    decreases toks.len() - pos, 8int,
{
    if pos < 0 || pos > toks.len() {
        (Err(ParseFault::Eof), pos)
    } else if tok_at(toks, pos, Token::LParen) {
        let (ar, p2) = if tok_at(toks, pos + 1, Token::RParen) {
            (Ok(Seq::empty()), pos + 1)
        } else {
            exprs_at(toks, pos + 1, Seq::empty())
        };
        match ar {
            Err(err) => (Err(err), p2),
            Ok(args) => {
                let (x, p3) = expect_at(toks, p2, Token::RParen);
                match x {
                    Err(err) => (Err(err), p3),
                    Ok(_) => if !(pos < p3 <= toks.len()) {
                        (Err(ParseFault::Eof), p3)
                    } else {
                        postfix_at(toks, p3, ExprV::Call(Box::new(e), args))
                    },
                }
            },
        }
    } else if tok_at(toks, pos, Token::LBracket) {
        let (ir, p2) = expression_at(toks, pos + 1);
        match ir {
            Err(err) => (Err(err), p2),
            Ok(index) => {
                let (x, p3) = expect_at(toks, p2, Token::RBracket);
                match x {
                    Err(err) => (Err(err), p3),
                    Ok(_) => if !(pos < p3 <= toks.len()) {
                        (Err(ParseFault::Eof), p3)
                    } else {
                        postfix_at(toks, p3, ExprV::Index(Box::new(e), Box::new(index)))
                    },
                }
            },
        }
    } else if tok_at(toks, pos, Token::Dot) {
        let p2 = advance_pos(toks, pos + 1);
        match advance_tok(toks, pos + 1) {
            Err(err) => (Err(err), p2),
            Ok(Token::Identifier(f)) => postfix_at(toks, p2, ExprV::FieldAccess(Box::new(e), f@)),
            Ok(other) => (Err(ParseFault::Unexpected("identifier"@, FoundV::Tok(other))), p2),
        }
    } else if tok_at(toks, pos, Token::LBrace) {
        let (fr, p2) = slit_at(toks, pos + 1, Seq::empty());
        match fr {
            Err(err) => (Err(err), p2),
            Ok(fields) => {
                let (x, p3) = expect_at(toks, p2, Token::RBrace);
                match x {
                    Err(err) => (Err(err), p3),
                    Ok(_) => match e {
                        ExprV::Identifier(n) => if !(pos < p3 <= toks.len()) {
                            (Err(ParseFault::Eof), p3)
                        } else {
                            postfix_at(toks, p3, ExprV::Struct(n, fields))
                        },
                        _ => (Err(ParseFault::Unexpected("struct type name"@, FoundV::Expr(e))), p3),
                    },
                }
            },
        }
    } else {
        (Ok(e), pos)
    }
}

/// Comma-separated expressions, appended to `acc`.
pub open spec fn exprs_at(toks: Seq<Token>, pos: int, acc: Seq<ExprV>) -> (Result<Seq<ExprV>, ParseFault>, int)
    decreases toks.len() - pos, 36int,
{
    if pos < 0 || pos > toks.len() {
        (Err(ParseFault::Eof), pos)
    } else {
        let (r, p) = expression_at(toks, pos);
        match r {
            Err(e) => (Err(e), p),
            Ok(x) => if !(pos <= p <= toks.len()) {
                (Err(ParseFault::Eof), p)
            } else if tok_at(toks, p, Token::Comma) {
                exprs_at(toks, p + 1, acc.push(x))
            } else {
                (Ok(acc.push(x)), p)
            },
        }
    }
}

/// Struct literal fields `name: value`, with commas, up to a `}`; appended
/// to `acc`.
pub open spec fn slit_at(toks: Seq<Token>, pos: int, acc: Seq<(Seq<char>, ExprV)>) -> (Result<Seq<(Seq<char>, ExprV)>, ParseFault>, int)
    decreases toks.len() - pos, 36int,
{
    if pos < 0 || pos > toks.len() {
        (Err(ParseFault::Eof), pos)
    } else if tok_at(toks, pos, Token::RBrace) {
        (Ok(acc), pos)
    } else {
        let p1 = advance_pos(toks, pos);
        match advance_tok(toks, pos) {
            Err(e) => (Err(e), p1),
            Ok(Token::Identifier(n)) => {
                let (x, p2) = expect_at(toks, p1, Token::Colon);
                match x {
                    Err(e) => (Err(e), p2),
                    Ok(_) => {
                        let (v, p3) = expression_at(toks, p2);
                        match v {
                            Err(e) => (Err(e), p3),
                            Ok(value) => if !(pos < p3 <= toks.len()) {
                                (Err(ParseFault::Eof), p3)
                            } else if tok_at(toks, p3, Token::Comma) {
                                slit_at(toks, p3 + 1, acc.push((n@, value)))
                            } else if !tok_at(toks, p3, Token::RBrace) {
                                (Ok(acc.push((n@, value))), p3)
                            } else {
                                slit_at(toks, p3, acc.push((n@, value)))
                            },
                        }
                    },
                }
            },
            Ok(other) => (Err(ParseFault::Unexpected("field name"@, FoundV::Tok(other))), p1),
        }
    }
}

/// A pattern: a literal, `_`, a path, or a pattern in parentheses.
pub open spec fn pattern_at(toks: Seq<Token>, pos: int) -> (Result<ExprV, ParseFault>, int)
    decreases toks.len() - pos, 11int,
{
    if pos < 0 || pos > toks.len() {
        (Err(ParseFault::Eof), pos)
    } else {
        match peek_at(toks, pos) {
            Err(e) => (Err(e), pos),
            Ok(tok) => match tok {
                Token::Identifier(n) => if n@ == "_"@ {
                    (Ok(ExprV::Identifier("_"@)), pos + 1)
                } else {
                    path_at(toks, pos)
                },
                Token::LParen => {
                    let (r, p) = pattern_at(toks, pos + 1);
                    match r {
                        Err(e) => (Err(e), p),
                        Ok(pt) => {
                            let (x, p2) = expect_at(toks, p, Token::RParen);
                            (match x { Ok(_) => Ok(pt), Err(e) => Err(e) }, p2)
                        },
                    }
                },
                _ => match plain_literal(tok) {
                    Some(l) => (Ok(ExprV::Literal(l)), pos + 1),
                    None => (Err(ParseFault::Unexpected("pattern"@, FoundV::Tok(tok))), pos),
                },
            },
        }
    }
}

/// After `if` or `elif`: a condition, `:`, a branch, and an optional `elif`
/// chain or `else: branch`.
pub open spec fn if_at(toks: Seq<Token>, pos: int) -> (Result<ExprV, ParseFault>, int)
    decreases toks.len() - pos, 36int,
{
    if pos < 0 || pos > toks.len() {
        (Err(ParseFault::Eof), pos)
    } else {
        let (c, p1) = level_at(toks, pos, 0);
        match c {
            Err(e) => (Err(e), p1),
            Ok(cond) => {
                let (x, p2) = expect_at(toks, p1, Token::Colon);
                match x {
                    Err(e) => (Err(e), p2),
                    Ok(_) => if !(pos < p2 <= toks.len()) {
                        (Err(ParseFault::Eof), p2)
                    } else {
                        let (t, p3) = expression_at(toks, p2);
                        match t {
                            Err(e) => (Err(e), p3),
                            Ok(then_b) => if !(pos < p3 <= toks.len()) {
                                (Err(ParseFault::Eof), p3)
                            } else if tok_at(toks, p3, Token::Elif) || tok_at(toks, p3, Token::ElifZh) {
                                let (r, q) = if_at(toks, p3 + 1);
                                (match r { Ok(x) => Ok(ExprV::If(Box::new(cond), Box::new(then_b), Some(Box::new(x)))), Err(e) => Err(e) }, q)
                            } else if tok_at(toks, p3, Token::Else) || tok_at(toks, p3, Token::ElseZh) {
                                let (y, q) = expect_at(toks, p3 + 1, Token::Colon);
                                match y {
                                    Err(e) => (Err(e), q),
                                    Ok(_) => {
                                        let (r, q2) = expression_at(toks, q);
                                        (match r { Ok(x) => Ok(ExprV::If(Box::new(cond), Box::new(then_b), Some(Box::new(x)))), Err(e) => Err(e) }, q2)
                                    },
                                }
                            } else {
                                (Ok(ExprV::If(Box::new(cond), Box::new(then_b), None)), p3)
                            },
                        }
                    },
                }
            },
        }
    }
}

/// After `match`: an expression, `:`, then the arms.
pub open spec fn match_at(toks: Seq<Token>, pos: int) -> (Result<ExprV, ParseFault>, int)
    decreases toks.len() - pos, 36int,
{
    if pos < 0 || pos > toks.len() {
        (Err(ParseFault::Eof), pos)
    } else {
        let (r, p1) = expression_at(toks, pos);
        match r {
            Err(e) => (Err(e), p1),
            Ok(x) => {
                let (y, p2) = expect_at(toks, p1, Token::Colon);
                match y {
                    Err(e) => (Err(e), p2),
                    Ok(_) => if !(pos < p2 <= toks.len()) {
                        (Err(ParseFault::Eof), p2)
                    } else {
                        let (cr, p3) = cases_at(toks, p2, Seq::empty());
                        (match cr { Ok(cs) => Ok(ExprV::Match(Box::new(x), cs)), Err(e) => Err(e) }, p3)
                    },
                }
            },
        }
    }
}

/// Match arms `pattern [if guard] => body [,]` up to the end of the input
/// or a `)`, `}` or `else`; appended to `acc`.
pub open spec fn cases_at(toks: Seq<Token>, pos: int, acc: Seq<(ExprV, Option<ExprV>, ExprV)>) -> (Result<Seq<(ExprV, Option<ExprV>, ExprV)>, ParseFault>, int)
    decreases toks.len() - pos, 36int,
{
    if pos < 0 || pos > toks.len() {
        (Err(ParseFault::Eof), pos)
    } else if pos >= toks.len() || toks[pos] is RParen || toks[pos] is RBrace || toks[pos] is Else {
        (Ok(acc), pos)
    } else {
        let (pr, p1) = pattern_at(toks, pos);
        match pr {
            Err(e) => (Err(e), p1),
            Ok(pt) => if !(pos <= p1 <= toks.len()) {
                (Err(ParseFault::Eof), p1)
            } else {
                let (gr, q) = if tok_at(toks, p1, Token::If) {
                    let (r, q) = expression_at(toks, p1 + 1);
                    (match r { Ok(g) => Ok(Some(g)), Err(e) => Err(e) }, q)
                } else {
                    (Ok(None), p1)
                };
                match gr {
                    Err(e) => (Err(e), q),
                    Ok(guard) => {
                        let (x, p2) = expect_at(toks, q, Token::FatArrow);
                        match x {
                            Err(e) => (Err(e), p2),
                            Ok(_) => if !(pos < p2 <= toks.len()) {
                                (Err(ParseFault::Eof), p2)
                            } else {
                                let (b, p3) = expression_at(toks, p2);
                                match b {
                                    Err(e) => (Err(e), p3),
                                    Ok(body) => if !(pos < p3 <= toks.len()) {
                                        (Err(ParseFault::Eof), p3)
                                    } else {
                                        cases_at(toks, skip_opt(toks, p3, Token::Comma), acc.push((pt, guard, body)))
                                    },
                                }
                            },
                        }
                    },
                }
            },
        }
    }
}


// ---------------------------------------------------------------------------
// Statements and expressions, executable.
// ---------------------------------------------------------------------------

/// A list of statements by its texts.
pub open spec fn lift_stmts(r: Result<Vec<Statement>, ParserError>) -> Result<Seq<StmtV>, ParseFault> {
    match r {
        Ok(x) => Ok(svs(x@)),
        Err(e) => Err(fault(e)),
    }
}

/// A list of expressions by its texts.
pub open spec fn lift_exprs(r: Result<Vec<Expression>, ParserError>) -> Result<Seq<ExprV>, ParseFault> {
    match r {
        Ok(x) => Ok(evs(x@)),
        Err(e) => Err(fault(e)),
    }
}

/// A list of parameters by its texts.
pub open spec fn lift_params(r: Result<Vec<Parameter>, ParserError>) -> Result<Seq<ParamV>, ParseFault> {
    match r {
        Ok(x) => Ok(pvs(x@)),
        Err(e) => Err(fault(e)),
    }
}

/// A list of named field values by its texts.
pub open spec fn lift_fexprs(r: Result<Vec<(String, Expression)>, ParserError>) -> Result<Seq<(Seq<char>, ExprV)>, ParseFault> {
    match r {
        Ok(x) => Ok(fevs(x@)),
        Err(e) => Err(fault(e)),
    }
}

/// A list of match arms by its texts.
pub open spec fn lift_cases(r: Result<Vec<MatchCase>, ParserError>) -> Result<Seq<(ExprV, Option<ExprV>, ExprV)>, ParseFault> {
    match r {
        Ok(x) => Ok(cvs(x@)),
        Err(e) => Err(fault(e)),
    }
}

proof fn lemma_svs_push(ss: Seq<Statement>, s: Statement)
    ensures
        svs(ss.push(s)) == svs(ss).push(sv(s)),
{
    assert(ss.push(s).drop_last() =~= ss);
}

proof fn lemma_evs_push(es: Seq<Expression>, e: Expression)
    ensures
        evs(es.push(e)) == evs(es).push(ev(e)),
{
    assert(es.push(e).drop_last() =~= es);
}

proof fn lemma_pvs_push(ps: Seq<Parameter>, p: Parameter)
    ensures
        pvs(ps.push(p)) == pvs(ps).push(crate::ast::pv(p)),
{
    assert(ps.push(p).drop_last() =~= ps);
}

proof fn lemma_fevs_push(fs: Seq<(String, Expression)>, f: (String, Expression))
    ensures
        fevs(fs.push(f)) == fevs(fs).push((f.0@, ev(f.1))),
{
    assert(fs.push(f).drop_last() =~= fs);
}

proof fn lemma_cvs_push(cs: Seq<MatchCase>, c: MatchCase)
    ensures
        cvs(cs.push(c)) == cvs(cs).push(crate::ast::cv(c)),
{
    assert(cs.push(c).drop_last() =~= cs);
}

proof fn lemma_empty_views()
    ensures
        svs(Seq::<Statement>::empty()) == Seq::<StmtV>::empty(),
        evs(Seq::<Expression>::empty()) == Seq::<ExprV>::empty(),
        pvs(Seq::<Parameter>::empty()) == Seq::<ParamV>::empty(),
        fevs(Seq::<(String, Expression)>::empty()) == Seq::<(Seq<char>, ExprV)>::empty(),
        cvs(Seq::<MatchCase>::empty()) == Seq::<(ExprV, Option<ExprV>, ExprV)>::empty(),
{
}

/// The operator of an assignment token; see `assign_op`.
fn assign_op_of(t: &Token) -> (r: Option<Option<BinaryOperator>>)
    ensures
        r == assign_op(*t),
{
    match t {
        Token::Assign => Some(None),
        Token::AddAssign => Some(Some(BinaryOperator::Add)),
        Token::SubAssign => Some(Some(BinaryOperator::Sub)),
        Token::MulAssign => Some(Some(BinaryOperator::Mul)),
        Token::DivAssign => Some(Some(BinaryOperator::Div)),
        Token::ModAssign => Some(Some(BinaryOperator::Mod)),
        _ => None,
    }
}

/// The operator of a token at a level; see `level_op`.
fn level_op_of(lvl: u8, t: &Token) -> (r: Option<BinaryOperator>)
    ensures
        r == level_op(lvl as int, *t),
{
    if lvl == 0 {
        match t { Token::Or => Some(BinaryOperator::Or), _ => None }
    } else if lvl == 1 {
        match t { Token::And => Some(BinaryOperator::And), _ => None }
    } else if lvl == 2 {
        match t { Token::Eq => Some(BinaryOperator::Eq), Token::Ne => Some(BinaryOperator::Ne), _ => None }
    } else if lvl == 3 {
        match t {
            Token::Lt => Some(BinaryOperator::Lt),
            Token::Le => Some(BinaryOperator::Le),
            Token::Gt => Some(BinaryOperator::Gt),
            Token::Ge => Some(BinaryOperator::Ge),
            _ => None,
        }
    } else if lvl == 5 {
        match t { Token::Plus => Some(BinaryOperator::Add), Token::Minus => Some(BinaryOperator::Sub), _ => None }
    } else if lvl == 6 {
        match t {
            Token::Star => Some(BinaryOperator::Mul),
            Token::Slash => Some(BinaryOperator::Div),
            Token::Percent => Some(BinaryOperator::Mod),
            _ => None,
        }
    } else {
        None
    }
}

/// The prefix operator of a token; see `unary_op`.
fn unary_op_of(t: &Token) -> (r: Option<UnaryOperator>)
    ensures
        r == unary_op(*t),
{
    match t {
        Token::Not => Some(UnaryOperator::Not),
        Token::Minus => Some(UnaryOperator::Neg),
        Token::Ampersand => Some(UnaryOperator::Ref),
        Token::Star => Some(UnaryOperator::Deref),
        _ => None,
    }
}

/// The literal of a token; see `plain_literal`.
fn plain_literal_of(t: &Token) -> (r: Option<Literal>)
    ensures
        match plain_literal(*t) {
            Some(l) => r matches Some(x) && crate::ast::lv(x) == l,
            None => r is None,
        },
{
    match t {
        Token::Integer(n) => Some(Literal::Integer(*n)),
        Token::Float(b) => Some(Literal::Float(*b)),
        Token::String(s) => Some(Literal::String(s.clone())),
        Token::True | Token::TrueZh => Some(Literal::Boolean(true)),
        Token::False | Token::FalseZh => Some(Literal::Boolean(false)),
        Token::Null => Some(Literal::Null),
        _ => None,
    }
}

proof fn lemma_strip_start_step(s: Seq<char>, i: int)
    requires
        0 <= i < s.len(),
        is_paren(s[i]),
    ensures
        strip_parens_start(s.skip(i)) == strip_parens_start(s.skip(i + 1)),
{
    assert(s.skip(i).drop_first() =~= s.skip(i + 1));
}

proof fn lemma_strip_end_step(s: Seq<char>, j: int)
    requires
        0 < j <= s.len(),
        is_paren(s[j - 1]),
    ensures
        strip_parens_end(s.take(j)) == strip_parens_end(s.take(j - 1)),
{
    assert(s.take(j).drop_last() =~= s.take(j - 1));
}

/// The literal of a unit token's text; see `unit_literal`.
#[verifier::spinoff_prover]
#[verifier::rlimit(80)]
fn unit_literal_of(s: &String) -> (r: Result<Literal, String>)
    ensures
        match unit_literal(s@) {
            Ok(l) => r matches Ok(x) && crate::ast::lv(x) == l,
            Err(m) => r matches Err(x) && x@ == m,
        },
{
    proof {
        reveal_strlit("Invalid unit literal: ");
    }
    let cs = chars_of(s.as_str());
    let ghost sv0 = cs@;
    let mut i: usize = 0;
    assert(sv0.skip(0) =~= sv0);
    while i < cs.len() && (cs[i] == '(' || cs[i] == ')')
        invariant
            cs@ == sv0,
            i <= cs@.len(),
            strip_parens_start(sv0) == strip_parens_start(sv0.skip(i as int)),
        decreases cs@.len() - i,
    {
        proof {
            lemma_strip_start_step(sv0, i as int);
        }
        i = i + 1;
    }
    assert(sv0.skip(0) =~= sv0);
    let mut rest: Vec<char> = Vec::new();
    let mut k: usize = i;
    while k < cs.len()
        invariant
            cs@ == sv0,
            i <= k <= cs@.len(),
            rest@ == sv0.subrange(i as int, k as int),
        decreases cs@.len() - k,
    {
        rest.push(cs[k]);
        proof {
            assert(sv0.subrange(i as int, k + 1) =~= sv0.subrange(i as int, k as int).push(sv0[k as int]));
        }
        k = k + 1;
    }
    let ghost t = rest@;
    proof {
        assert(t =~= sv0.skip(i as int));
        if i < cs@.len() {
            assert(strip_parens_start(t) == t);
        } else {
            assert(t.len() == 0);
        }
    }
    let mut j: usize = rest.len();
    assert(t.take(t.len() as int) =~= t);
    while j > 0 && (rest[j - 1] == '(' || rest[j - 1] == ')')
        invariant
            j <= rest@.len(),
            rest@ == t,
            strip_parens_end(t) == strip_parens_end(t.take(j as int)),
        decreases j,
    {
        proof {
            lemma_strip_end_step(t, j as int);
        }
        j = j - 1;
    }
    assert(t.take(t.len() as int) =~= t);
    let mut clean: Vec<char> = Vec::new();
    let mut k: usize = 0;
    while k < j
        invariant
            k <= j <= rest@.len(),
            rest@ == t,
            clean@ == t.take(k as int),
        decreases j - k,
    {
        clean.push(rest[k]);
        proof {
            assert(t.take(k + 1) =~= t.take(k as int).push(t[k as int]));
        }
        k = k + 1;
    }
    proof {
        if j > 0 {
            assert(strip_parens_end(t.take(j as int)) == t.take(j as int));
        } else {
            assert(t.take(0) =~= Seq::<char>::empty());
        }
        assert(clean@ == strip_parens_end(strip_parens_start(s@)));
    }
    let parts = split_char_exec(&clean, ',');
    proof {
        assert(parts@.map_values(|x: Vec<char>| x@).len() == parts@.len());
    }
    if parts.len() == 2 {
        let v = trim_chars(&parts[0]);
        let u = trim_chars(&parts[1]);
        proof {
            assert(parts@.map_values(|x: Vec<char>| x@)[0] == parts@[0]@);
            assert(parts@.map_values(|x: Vec<char>| x@)[1] == parts@[1]@);
        }
        let unit = string_from_chars(&u);
        if float_exec(&v) {
            Ok(Literal::UnitLiteral(string_from_chars(&v), unit))
        } else {
            let mut m = owned("Invalid unit literal: ");
            string_push_str(&mut m, unit.as_str());
            Err(m)
        }
    } else {
        let mut m = owned("Invalid unit literal: ");
        string_push_str(&mut m, s.as_str());
        Err(m)
    }
}

/// Parses lambda parameters; see `lparams_at`.
fn lparams_from(toks: &Vec<Token>, pos: usize, acc: Vec<Parameter>) -> (r: (Result<Vec<Parameter>, ParserError>, usize))
    requires
        pos <= toks@.len(),
    ensures
        (lift_params(r.0), r.1 as int) == lparams_at(toks@, pos as int, pvs(acc@)),
        pos <= r.1 <= toks@.len(),
    decreases toks@.len() - pos,
{
    proof {
        reveal_strlit("parameter name");
    }
    let (a, p1) = advance(toks, pos);
    match a {
        Err(e) => (Err(e), p1),
        Ok(Token::Identifier(n)) => {
            let (tr, q): (Result<Option<String>, ParserError>, usize) = if at(toks, p1, &Token::Colon) {
                let (r, q) = type_from(toks, p1 + 1);
                (match r { Ok(t) => Ok(Some(t)), Err(e) => Err(e) }, q)
            } else {
                (Ok(None), p1)
            };
            match tr {
                Err(e) => (Err(e), q),
                Ok(ty) => {
                    let mut acc2 = acc;
                    let prm = Parameter { name: n, ty, default: None };
                    proof {
                        lemma_pvs_push(acc2@, prm);
                    }
                    acc2.push(prm);
                    if !at(toks, q, &Token::Comma) {
                        (Ok(acc2), q)
                    } else {
                        lparams_from(toks, q + 1, acc2)
                    }
                },
            }
        },
        Ok(_) => match peek(toks, p1) {
            Ok(f) => (Err(ParserError::UnexpectedToken { expected: owned("parameter name"), found: Found::Token(f) }), p1),
            Err(e) => (Err(e), p1),
        },
    }
}

/// Parses the rest of a path; see `path_loop`.
fn path_loop_from(toks: &Vec<Token>, pos: usize, path: String) -> (r: (Result<String, ParserError>, usize))
    requires
        pos <= toks@.len(),
    ensures
        (lift_text(r.0), r.1 as int) == path_loop(toks@, pos as int, path@),
        pos <= r.1 <= toks@.len(),
    decreases toks@.len() - pos,
{
    proof {
        reveal_strlit("::");
        reveal_strlit("identifier");
    }
    if at(toks, pos, &Token::Colon) && at(toks, pos + 1, &Token::Colon) {
        let (a, p3) = advance(toks, pos + 2);
        match a {
            Err(e) => (Err(e), p3),
            Ok(t) => match variant_name_of(t) {
                Ok(n) => {
                    let mut next = path;
                    string_push_str(&mut next, "::");
                    string_push_str(&mut next, n.as_str());
                    path_loop_from(toks, p3, next)
                },
                Err(other) => (Err(ParserError::UnexpectedToken { expected: owned("identifier"), found: Found::Token(other) }), p3),
            },
        }
    } else {
        (Ok(path), pos)
    }
}

/// Parses statements to the end of the input; see `program_at`.
fn program_from(toks: &Vec<Token>, pos: usize, acc: Vec<Statement>) -> (r: (Result<Vec<Statement>, ParserError>, usize))
    requires
        pos <= toks@.len(),
    ensures
        (lift_stmts(r.0), r.1 as int) == program_at(toks@, pos as int, svs(acc@)),
        pos <= r.1 <= toks@.len(),
    decreases toks@.len() - pos, 44int,
{
    if pos >= toks.len() {
        return (Ok(acc), pos);
    }
    let (r, p) = statement_from(toks, pos);
    match r {
        Err(e) => (Err(e), p),
        Ok(s) => {
            if p <= pos {
                return (Err(ParserError::UnexpectedEof), p);
            }
            let mut acc2 = acc;
            proof {
                lemma_svs_push(acc2@, s);
            }
            acc2.push(s);
            program_from(toks, p, acc2)
        },
    }
}

/// Parses statements up to a `}`; see `block_at`.
fn block_from(toks: &Vec<Token>, pos: usize, acc: Vec<Statement>) -> (r: (Result<Vec<Statement>, ParserError>, usize))
    requires
        pos <= toks@.len(),
    ensures
        (lift_stmts(r.0), r.1 as int) == block_at(toks@, pos as int, svs(acc@)),
        pos <= r.1 <= toks@.len(),
    decreases toks@.len() - pos, 42int,
{
    if at(toks, pos, &Token::RBrace) {
        return (Ok(acc), pos);
    }
    let (r, p) = statement_from(toks, pos);
    match r {
        Err(e) => (Err(e), p),
        Ok(s) => {
            if p <= pos {
                return (Err(ParserError::UnexpectedEof), p);
            }
            let mut acc2 = acc;
            proof {
                lemma_svs_push(acc2@, s);
            }
            acc2.push(s);
            block_from(toks, p, acc2)
        },
    }
}

/// An expression statement from an expression result.
fn expr_stmt(r: (Result<Expression, ParserError>, usize)) -> (s: (Result<Statement, ParserError>, usize))
    ensures
        (lift_stmt(s.0), s.1 as int) == as_stmt((lift_expr(r.0), r.1 as int)),
        s.1 == r.1,
{
    match r.0 {
        Ok(e) => (Ok(Statement::Expression(e)), r.1),
        Err(e) => (Err(e), r.1),
    }
}

/// Parses one statement; see `statement_at`.
#[verifier::spinoff_prover]
#[verifier::rlimit(80)]
fn statement_from(toks: &Vec<Token>, pos: usize) -> (r: (Result<Statement, ParserError>, usize))
    requires
        pos <= toks@.len(),
    ensures
        (lift_stmt(r.0), r.1 as int) == statement_at(toks@, pos as int),
        pos <= r.1 <= toks@.len(),
    decreases toks@.len() - pos, 40int,
{
    proof {
        reveal_strlit("if or elif statement");
    }
    if pos >= toks.len() {
        return (Err(ParserError::UnexpectedEof), pos);
    }
    let t = &toks[pos];
    if matches!(t, Token::Let | Token::Var | Token::LetZh | Token::VarZh) {
        let_from(toks, pos)
    } else if matches!(t, Token::Fn) {
        function_from(toks, pos)
    } else if matches!(t, Token::Struct | Token::StructZh) {
        let (r, p) = struct_from(toks, pos);
        (r, p)
    } else if matches!(t, Token::Enum | Token::EnumZh) {
        enum_from(toks, pos)
    } else if matches!(t, Token::Group | Token::GroupZh) {
        group_from(toks, pos)
    } else if matches!(t, Token::Return | Token::ReturnZh) {
        return_from(toks, pos)
    } else if matches!(t, Token::If | Token::IfZh | Token::Elif | Token::ElifZh) {
        expr_stmt(if_from(toks, pos + 1))
    } else if matches!(t, Token::While | Token::WhileZh | Token::LoopZh) {
        while_from(toks, pos)
    } else if matches!(t, Token::For) {
        for_from(toks, pos)
    } else if matches!(t, Token::Import) {
        import_from(toks, pos)
    } else if matches!(t, Token::Match | Token::MatchZh) {
        expr_stmt(match_from(toks, pos + 1))
    } else if matches!(t, Token::Else | Token::ElseZh) {
        (Err(ParserError::UnexpectedToken { expected: owned("if or elif statement"), found: Found::Token(copy_token(t)) }), pos)
    } else {
        let (r, p) = expression_from(toks, pos);
        match r {
            Err(e) => (Err(e), p),
            Ok(e) => {
                let p2 = if at(toks, p, &Token::Semicolon) { p + 1 } else { p };
                (Ok(Statement::Expression(e)), p2)
            },
        }
    }
}

/// Parses a `let`; see `let_at`.
#[verifier::spinoff_prover]
#[verifier::rlimit(80)]
fn let_from(toks: &Vec<Token>, pos: usize) -> (r: (Result<Statement, ParserError>, usize))
    requires
        pos <= toks@.len(),
    ensures
        (lift_stmt(r.0), r.1 as int) == let_at(toks@, pos as int),
        pos <= r.1 <= toks@.len(),
    decreases toks@.len() - pos, 38int,
{
    proof {
        reveal_strlit("identifier");
    }
    let (a, p1) = advance(toks, pos);
    let tok = match a {
        Err(e) => {
            return (Err(e), p1);
        },
        Ok(tok) => tok,
    };
    let m0 = matches!(tok, Token::Var | Token::VarZh);
    let has_mut = at(toks, p1, &Token::Mut);
    let mutable = m0 || has_mut;
    let p2 = if !m0 && has_mut { p1 + 1 } else { p1 };
    let (b, p3) = advance(toks, p2);
    let name = match b {
        Err(e) => {
            return (Err(e), p3);
        },
        Ok(Token::Identifier(name)) => name,
        Ok(other) => {
            return (Err(ParserError::UnexpectedToken { expected: owned("identifier"), found: Found::Token(other) }), p3);
        },
    };
    let (tr, p4): (Result<Option<String>, ParserError>, usize) = if at(toks, p3, &Token::Colon) {
        let (r, q) = type_from(toks, p3 + 1);
        (match r { Ok(t) => Ok(Some(t)), Err(e) => Err(e) }, q)
    } else {
        (Ok(None), p3)
    };
    let ty = match tr {
        Err(e) => {
            return (Err(e), p4);
        },
        Ok(ty) => ty,
    };
    let (x, p5) = expect(toks, p4, &Token::Assign);
    if let Err(e) = x {
        return (Err(e), p5);
    }
    let (v, p6) = expression_from(toks, p5);
    match v {
        Err(e) => (Err(e), p6),
        Ok(value) => {
            let p7 = if at(toks, p6, &Token::Semicolon) { p6 + 1 } else { p6 };
            (Ok(Statement::Let { mutable, name, ty, value }), p7)
        },
    }
}

/// Parses a function body; see `fn_body_at`.
#[verifier::spinoff_prover]
#[verifier::rlimit(80)]
fn fn_body_from(toks: &Vec<Token>, pos: usize) -> (r: (Result<Expression, ParserError>, usize))
    requires
        pos <= toks@.len(),
    ensures
        (lift_expr(r.0), r.1 as int) == fn_body_at(toks@, pos as int),
        pos <= r.1 <= toks@.len(),
    decreases toks@.len() - pos, 39int,
{
    proof {
        reveal_strlit("Assign, LBrace or Colon");
    }
    if at(toks, pos, &Token::Assign) {
        expression_from(toks, pos + 1)
    } else if at(toks, pos, &Token::LBrace) {
        proof {
            lemma_empty_views();
        }
        let (r, q) = block_from(toks, pos + 1, Vec::new());
        match r {
            Err(e) => (Err(e), q),
            Ok(stmts) => {
                let (a, q2) = advance(toks, q);
                match a {
                    Err(e) => (Err(e), q2),
                    Ok(_) => (Ok(Expression::Block(stmts)), q2),
                }
            },
        }
    } else if at(toks, pos, &Token::Colon) {
        let (r, q) = statement_from(toks, pos + 1);
        match r {
            Ok(s) => {
                let mut v: Vec<Statement> = Vec::new();
                v.push(s);
                proof {
                    lemma_empty_views();
                    lemma_svs_push(Seq::empty(), s);
                    assert(v@ =~= Seq::<Statement>::empty().push(s));
                }
                (Ok(Expression::Block(v)), q)
            },
            Err(e) => (Err(e), q),
        }
    } else {
        match peek(toks, pos) {
            Ok(f) => (Err(ParserError::UnexpectedToken { expected: owned("Assign, LBrace or Colon"), found: Found::Token(f) }), pos),
            Err(e) => (Err(e), pos),
        }
    }
}

/// Parses a function declaration; see `function_at`.
#[verifier::spinoff_prover]
#[verifier::rlimit(80)]
fn function_from(toks: &Vec<Token>, pos: usize) -> (r: (Result<Statement, ParserError>, usize))
    requires
        pos <= toks@.len(),
    ensures
        (lift_stmt(r.0), r.1 as int) == function_at(toks@, pos as int),
        pos <= r.1 <= toks@.len(),
    decreases toks@.len() - pos, 38int,
{
    proof {
        reveal_strlit("identifier");
    }
    let kernel = at(toks, pos, &Token::KernelAttr);
    let p0 = if kernel { pos + 1 } else { pos };
    let (a, p1) = advance(toks, p0);
    if let Err(e) = a {
        return (Err(e), p1);
    }
    let (b, p2) = advance(toks, p1);
    let name = match b {
        Err(e) => {
            return (Err(e), p2);
        },
        Ok(Token::Identifier(name)) => name,
        Ok(other) => {
            return (Err(ParserError::UnexpectedToken { expected: owned("identifier"), found: Found::Token(other) }), p2);
        },
    };
    let (x, p3) = expect(toks, p2, &Token::LParen);
    if let Err(e) = x {
        return (Err(e), p3);
    }
    let (pr, p4) = params_from(toks, p3);
    let params = match pr {
        Err(e) => {
            return (Err(e), p4);
        },
        Ok(ps) => ps,
    };
    let (y, p5) = expect(toks, p4, &Token::RParen);
    if let Err(e) = y {
        return (Err(e), p5);
    }
    let (rr, p6): (Result<Option<String>, ParserError>, usize) = if at(toks, p5, &Token::Arrow) {
        let (r, q) = type_from(toks, p5 + 1);
        (match r { Ok(t) => Ok(Some(t)), Err(e) => Err(e) }, q)
    } else {
        (Ok(None), p5)
    };
    let return_type = match rr {
        Err(e) => {
            return (Err(e), p6);
        },
        Ok(rt) => rt,
    };
    let (br, p7) = fn_body_from(toks, p6);
    match br {
        Err(e) => (Err(e), p7),
        Ok(body) => {
            let p8 = if at(toks, p7, &Token::Semicolon) { p7 + 1 } else { p7 };
            (Ok(Statement::Function { name, params, return_type, body, kernel }), p8)
        },
    }
}

/// Parses function parameters; see `params_at`.
fn params_from(toks: &Vec<Token>, pos: usize) -> (r: (Result<Vec<Parameter>, ParserError>, usize))
    requires
        pos <= toks@.len(),
    ensures
        (lift_params(r.0), r.1 as int) == params_at(toks@, pos as int),
        pos <= r.1 <= toks@.len(),
    decreases toks@.len() - pos, 37int,
{
    proof {
        lemma_empty_views();
    }
    if at(toks, pos, &Token::RParen) {
        (Ok(Vec::new()), pos)
    } else {
        params_loop_from(toks, pos, Vec::new())
    }
}

/// Parses more parameters; see `params_loop`.
#[verifier::spinoff_prover]
#[verifier::rlimit(80)]
fn params_loop_from(toks: &Vec<Token>, pos: usize, acc: Vec<Parameter>) -> (r: (Result<Vec<Parameter>, ParserError>, usize))
    requires
        pos <= toks@.len(),
    ensures
        (lift_params(r.0), r.1 as int) == params_loop(toks@, pos as int, pvs(acc@)),
        pos <= r.1 <= toks@.len(),
    decreases toks@.len() - pos, 36int,
{
    proof {
        reveal_strlit("identifier");
    }
    let (a, p1) = advance(toks, pos);
    match a {
        Err(e) => (Err(e), p1),
        Ok(Token::Identifier(n)) => {
            let (tr, q): (Result<Option<String>, ParserError>, usize) = if at(toks, p1, &Token::Colon) {
                let (r, q) = type_from(toks, p1 + 1);
                (match r { Ok(t) => Ok(Some(t)), Err(e) => Err(e) }, q)
            } else {
                (Ok(None), p1)
            };
            let ty = match tr {
                Err(e) => {
                    return (Err(e), q);
                },
                Ok(ty) => ty,
            };
            let (dr, q2): (Result<Option<Expression>, ParserError>, usize) = if at(toks, q, &Token::Assign) {
                let (r, q2) = expression_from(toks, q + 1);
                (match r { Ok(d) => Ok(Some(d)), Err(e) => Err(e) }, q2)
            } else {
                (Ok(None), q)
            };
            let default = match dr {
                Err(e) => {
                    return (Err(e), q2);
                },
                Ok(d) => d,
            };
            let mut acc2 = acc;
            let prm = Parameter { name: n, ty, default };
            proof {
                lemma_pvs_push(acc2@, prm);
            }
            acc2.push(prm);
            if !at(toks, q2, &Token::Comma) {
                (Ok(acc2), q2)
            } else {
                params_loop_from(toks, q2 + 1, acc2)
            }
        },
        Ok(other) => (Err(ParserError::UnexpectedToken { expected: owned("identifier"), found: Found::Token(other) }), p1),
    }
}

/// Parses a group; see `group_at`.
#[verifier::spinoff_prover]
#[verifier::rlimit(80)]
fn group_from(toks: &Vec<Token>, pos: usize) -> (r: (Result<Statement, ParserError>, usize))
    requires
        pos <= toks@.len(),
    ensures
        (lift_stmt(r.0), r.1 as int) == group_at(toks@, pos as int),
        pos <= r.1 <= toks@.len(),
    decreases toks@.len() - pos, 38int,
{
    proof {
        reveal_strlit("identifier");
        lemma_empty_views();
    }
    let (a, p1) = advance(toks, pos);
    if let Err(e) = a {
        return (Err(e), p1);
    }
    let (b, p2) = advance(toks, p1);
    let name = match b {
        Err(e) => {
            return (Err(e), p2);
        },
        Ok(Token::Identifier(name)) => name,
        Ok(other) => {
            return (Err(ParserError::UnexpectedToken { expected: owned("identifier"), found: Found::Token(other) }), p2);
        },
    };
    let (x, p3) = expect(toks, p2, &Token::LBrace);
    if let Err(e) = x {
        return (Err(e), p3);
    }
    let (r, p4) = block_from(toks, p3, Vec::new());
    let members = match r {
        Err(e) => {
            return (Err(e), p4);
        },
        Ok(m) => m,
    };
    let (c, p5) = advance(toks, p4);
    if let Err(e) = c {
        return (Err(e), p5);
    }
    let p6 = if at(toks, p5, &Token::Semicolon) { p5 + 1 } else { p5 };
    (Ok(Statement::Group { name, members }), p6)
}

/// Parses a `return` statement; see `return_at`.
#[verifier::spinoff_prover]
#[verifier::rlimit(80)]
fn return_from(toks: &Vec<Token>, pos: usize) -> (r: (Result<Statement, ParserError>, usize))
    requires
        pos <= toks@.len(),
    ensures
        (lift_stmt(r.0), r.1 as int) == return_at(toks@, pos as int),
        pos <= r.1 <= toks@.len(),
    decreases toks@.len() - pos, 38int,
{
    proof {
        reveal_strlit("return or \u{8fd4}\u{56de}");
    }
    let (a, p1) = advance(toks, pos);
    let tok = match a {
        Err(e) => {
            return (Err(e), p1);
        },
        Ok(tok) => tok,
    };
    if !matches!(tok, Token::Return | Token::ReturnZh) {
        return (Err(ParserError::UnexpectedToken { expected: owned("return or \u{8fd4}\u{56de}"), found: Found::Token(tok) }), p1);
    }
    if !at(toks, p1, &Token::Semicolon) && p1 < toks.len() {
        let (r, q) = expression_from(toks, p1);
        match r {
            Err(e) => (Err(e), q),
            Ok(v) => {
                let q2 = if at(toks, q, &Token::Semicolon) { q + 1 } else { q };
                (Ok(Statement::Return(Some(v))), q2)
            },
        }
    } else {
        let q2 = if at(toks, p1, &Token::Semicolon) { p1 + 1 } else { p1 };
        (Ok(Statement::Return(None)), q2)
    }
}

/// Parses a `while` statement; see `while_at`.
#[verifier::spinoff_prover]
#[verifier::rlimit(80)]
fn while_from(toks: &Vec<Token>, pos: usize) -> (r: (Result<Statement, ParserError>, usize))
    requires
        pos <= toks@.len(),
    ensures
        (lift_stmt(r.0), r.1 as int) == while_at(toks@, pos as int),
        pos <= r.1 <= toks@.len(),
    decreases toks@.len() - pos, 38int,
{
    proof {
        reveal_strlit("while, \u{5f53}, or \u{5faa}\u{73af}");
    }
    let (a, p1) = advance(toks, pos);
    let tok = match a {
        Err(e) => {
            return (Err(e), p1);
        },
        Ok(tok) => tok,
    };
    if !matches!(tok, Token::While | Token::WhileZh | Token::LoopZh) {
        return (Err(ParserError::UnexpectedToken { expected: owned("while, \u{5f53}, or \u{5faa}\u{73af}"), found: Found::Token(tok) }), p1);
    }
    let (c, p2) = expression_from(toks, p1);
    let condition = match c {
        Err(e) => {
            return (Err(e), p2);
        },
        Ok(c) => c,
    };
    let (x, p3) = expect(toks, p2, &Token::Colon);
    if let Err(e) = x {
        return (Err(e), p3);
    }
    let (b, p4) = expression_from(toks, p3);
    match b {
        Err(e) => (Err(e), p4),
        Ok(body) => {
            let p5 = if at(toks, p4, &Token::Semicolon) { p4 + 1 } else { p4 };
            (Ok(Statement::While { condition, body }), p5)
        },
    }
}

/// Parses a `for` statement; see `for_at`.
#[verifier::spinoff_prover]
#[verifier::rlimit(80)]
fn for_from(toks: &Vec<Token>, pos: usize) -> (r: (Result<Statement, ParserError>, usize))
    requires
        pos <= toks@.len(),
    ensures
        (lift_stmt(r.0), r.1 as int) == for_at(toks@, pos as int),
        pos <= r.1 <= toks@.len(),
    decreases toks@.len() - pos, 38int,
{
    proof {
        reveal_strlit("identifier");
    }
    let (a, p1) = advance(toks, pos);
    if let Err(e) = a {
        return (Err(e), p1);
    }
    let (b, p2) = advance(toks, p1);
    let pattern = match b {
        Err(e) => {
            return (Err(e), p2);
        },
        Ok(Token::Identifier(n)) => n,
        Ok(other) => {
            return (Err(ParserError::UnexpectedToken { expected: owned("identifier"), found: Found::Token(other) }), p2);
        },
    };
    let (x, p3) = expect(toks, p2, &Token::In);
    if let Err(e) = x {
        return (Err(e), p3);
    }
    let (i, p4) = expression_from(toks, p3);
    let in_expr = match i {
        Err(e) => {
            return (Err(e), p4);
        },
        Ok(i) => i,
    };
    let (y, p5) = expect(toks, p4, &Token::Colon);
    if let Err(e) = y {
        return (Err(e), p5);
    }
    let (b, p6) = expression_from(toks, p5);
    match b {
        Err(e) => (Err(e), p6),
        Ok(body) => {
            let p7 = if at(toks, p6, &Token::Semicolon) { p6 + 1 } else { p6 };
            (Ok(Statement::For { pattern, in_expr, body }), p7)
        },
    }
}

/// Parses an expression; see `expression_at`.
fn expression_from(toks: &Vec<Token>, pos: usize) -> (r: (Result<Expression, ParserError>, usize))
    requires
        pos <= toks@.len(),
    ensures
        (lift_expr(r.0), r.1 as int) == expression_at(toks@, pos as int),
        pos <= r.1 <= toks@.len(),
    decreases toks@.len() - pos, 34int,
{
    assignment_from(toks, pos)
}

/// Parses an assignment; see `assignment_at`.
fn assignment_from(toks: &Vec<Token>, pos: usize) -> (r: (Result<Expression, ParserError>, usize))
    requires
        pos <= toks@.len(),
    ensures
        (lift_expr(r.0), r.1 as int) == assignment_at(toks@, pos as int),
        pos <= r.1 <= toks@.len(),
    decreases toks@.len() - pos, 32int,
{
    let (l, p1) = level_from(toks, pos, 0);
    let left = match l {
        Err(e) => {
            return (Err(e), p1);
        },
        Ok(left) => left,
    };
    if p1 < toks.len() {
        match assign_op_of(&toks[p1]) {
            Some(kind) => {
                let (r, p2) = assignment_from(toks, p1 + 1);
                match r {
                    Err(e) => (Err(e), p2),
                    Ok(right) => {
                        let ghost vl = ev(left);
                        let ghost vr = ev(right);
                        match kind {
                            None => {
                                let res = Expression::Assign { left: Box::new(left), right: Box::new(right) };
                                assert(ev(res) == ExprV::Assign(Box::new(vl), Box::new(vr)));
                                (Ok(res), p2)
                            },
                            Some(op) => {
                                let target = copy_expr(&left);
                                let bin = Expression::BinaryOp { left: Box::new(left), op, right: Box::new(right) };
                                assert(ev(bin) == ExprV::BinaryOp(Box::new(vl), op, Box::new(vr)));
                                let res = Expression::Assign { left: Box::new(target), right: Box::new(bin) };
                                assert(ev(res) == ExprV::Assign(Box::new(vl), Box::new(ExprV::BinaryOp(Box::new(vl), op, Box::new(vr)))));
                                (Ok(res), p2)
                            },
                        }
                    },
                }
            },
            None => (Ok(left), p1),
        }
    } else {
        (Ok(left), p1)
    }
}

/// Parses a precedence level; see `level_at`.
fn level_from(toks: &Vec<Token>, pos: usize, lvl: u8) -> (r: (Result<Expression, ParserError>, usize))
    requires
        pos <= toks@.len(),
        is_level(lvl as int),
    ensures
        (lift_expr(r.0), r.1 as int) == level_at(toks@, pos as int, lvl as int),
        pos <= r.1 <= toks@.len(),
    decreases toks@.len() - pos, 30 - 2 * lvl,
{
    let (l, p1) = if lvl == 3 {
        range_from(toks, pos)
    } else if lvl == 6 {
        cast_from(toks, pos)
    } else {
        level_from(toks, pos, lvl + 1)
    };
    match l {
        Err(e) => (Err(e), p1),
        Ok(left) => level_loop_from(toks, p1, lvl, left),
    }
}

/// Parses more operators of a level; see `level_loop`.
fn level_loop_from(toks: &Vec<Token>, pos: usize, lvl: u8, left: Expression) -> (r: (Result<Expression, ParserError>, usize))
    requires
        pos <= toks@.len(),
        is_level(lvl as int),
    ensures
        (lift_expr(r.0), r.1 as int) == level_loop(toks@, pos as int, lvl as int, ev(left)),
        pos <= r.1 <= toks@.len(),
    decreases toks@.len() - pos, 29 - 2 * lvl,
{
    if pos < toks.len() {
        match level_op_of(lvl, &toks[pos]) {
            Some(op) => {
                let (r, p1) = if lvl == 3 {
                    range_from(toks, pos + 1)
                } else if lvl == 6 {
                    cast_from(toks, pos + 1)
                } else {
                    level_from(toks, pos + 1, lvl + 1)
                };
                match r {
                    Err(e) => (Err(e), p1),
                    Ok(right) => level_loop_from(toks, p1, lvl, Expression::BinaryOp { left: Box::new(left), op, right: Box::new(right) }),
                }
            },
            None => (Ok(left), pos),
        }
    } else {
        (Ok(left), pos)
    }
}

/// Parses a range; see `range_at`.
fn range_from(toks: &Vec<Token>, pos: usize) -> (r: (Result<Expression, ParserError>, usize))
    requires
        pos <= toks@.len(),
    ensures
        (lift_expr(r.0), r.1 as int) == range_at(toks@, pos as int),
        pos <= r.1 <= toks@.len(),
    decreases toks@.len() - pos, 22int,
{
    let (l, p1) = level_from(toks, pos, 5);
    let left = match l {
        Err(e) => {
            return (Err(e), p1);
        },
        Ok(left) => left,
    };
    if at(toks, p1, &Token::Range) || at(toks, p1, &Token::RangeInclusive) {
        let inclusive = at(toks, p1, &Token::RangeInclusive);
        let (r, p2) = level_from(toks, p1 + 1, 5);
        match r {
            Err(e) => (Err(e), p2),
            Ok(right) => (Ok(Expression::Range { start: Box::new(left), end: Box::new(right), inclusive }), p2),
        }
    } else {
        (Ok(left), p1)
    }
}

/// Parses a cast chain; see `cast_at`.
fn cast_from(toks: &Vec<Token>, pos: usize) -> (r: (Result<Expression, ParserError>, usize))
    requires
        pos <= toks@.len(),
    ensures
        (lift_expr(r.0), r.1 as int) == cast_at(toks@, pos as int),
        pos <= r.1 <= toks@.len(),
    decreases toks@.len() - pos, 16int,
{
    let (u, p1) = unary_from(toks, pos);
    match u {
        Err(e) => (Err(e), p1),
        Ok(e) => cast_loop_from(toks, p1, e),
    }
}

/// Parses casts after an expression; see `cast_loop`.
fn cast_loop_from(toks: &Vec<Token>, pos: usize, e: Expression) -> (r: (Result<Expression, ParserError>, usize))
    requires
        pos <= toks@.len(),
    ensures
        (lift_expr(r.0), r.1 as int) == cast_loop(toks@, pos as int, ev(e)),
        pos <= r.1 <= toks@.len(),
    decreases toks@.len() - pos, 15int,
{
    proof {
        reveal_strlit("as");
    }
    if at(toks, pos, &Token::As) {
        let (t, p1) = type_from(toks, pos + 1);
        match t {
            Err(err) => (Err(err), p1),
            Ok(ty) => {
                let ghost ve = ev(e);
                let mut args: Vec<Expression> = Vec::new();
                args.push(e);
                args.push(Expression::Identifier(ty));
                proof {
                    lemma_empty_views();
                    let a1 = Seq::<Expression>::empty().push(args@[0]);
                    lemma_evs_push(Seq::empty(), args@[0]);
                    lemma_evs_push(a1, args@[1]);
                    assert(args@ =~= a1.push(args@[1]));
                    assert(evs(args@) =~= seq![ve, ExprV::Identifier(ty@)]);
                }
                let callee = Expression::Identifier(owned("as"));
                assert(ev(callee) == ExprV::Identifier("as"@));
                let call = Expression::Call { callee: Box::new(callee), args };
                assert(ev(call) == ExprV::Call(Box::new(ExprV::Identifier("as"@)), seq![ve, ExprV::Identifier(ty@)]));
                cast_loop_from(toks, p1, call)
            },
        }
    } else {
        (Ok(e), pos)
    }
}

/// Parses prefix operators and a primary; see `unary_at`.
fn unary_from(toks: &Vec<Token>, pos: usize) -> (r: (Result<Expression, ParserError>, usize))
    requires
        pos <= toks@.len(),
    ensures
        (lift_expr(r.0), r.1 as int) == unary_at(toks@, pos as int),
        pos <= r.1 <= toks@.len(),
    decreases toks@.len() - pos, 14int,
{
    if pos < toks.len() {
        match unary_op_of(&toks[pos]) {
            Some(op) => {
                let (r, p1) = unary_from(toks, pos + 1);
                return match r {
                    Err(e) => (Err(e), p1),
                    Ok(e) => (Ok(Expression::UnaryOp { op, expr: Box::new(e) }), p1),
                };
            },
            None => {},
        }
    }
    primary_from(toks, pos)
}

/// Parses a primary and its postfix operators; see `primary_at`.
fn primary_from(toks: &Vec<Token>, pos: usize) -> (r: (Result<Expression, ParserError>, usize))
    requires
        pos <= toks@.len(),
    ensures
        (lift_expr(r.0), r.1 as int) == primary_at(toks@, pos as int),
        pos <= r.1 <= toks@.len(),
    decreases toks@.len() - pos, 13int,
{
    let (r, p) = primary_head_from(toks, pos);
    match r {
        Err(e) => (Err(e), p),
        Ok(e) => postfix_from(toks, p, e),
    }
}

/// Parses the start of a primary; see `primary_head`.
#[verifier::spinoff_prover]
#[verifier::rlimit(80)]
fn primary_head_from(toks: &Vec<Token>, pos: usize) -> (r: (Result<Expression, ParserError>, usize))
    requires
        pos <= toks@.len(),
    ensures
        (lift_expr(r.0), r.1 as int) == primary_head(toks@, pos as int),
        pos <= r.1 <= toks@.len(),
    decreases toks@.len() - pos, 12int,
{
    proof {
        reveal_strlit("print");
        reveal_strlit("println");
        reveal_strlit("expression");
        lemma_empty_views();
    }
    if pos >= toks.len() {
        return (Err(ParserError::UnexpectedEof), pos);
    }
    match &toks[pos] {
        Token::UnitLiteral(s) => (match unit_literal_of(s) {
            Ok(l) => Ok(Expression::Literal(l)),
            Err(m) => Err(ParserError::InvalidSyntax { message: m }),
        }, pos + 1),
        Token::Print | Token::PrintZh => (Ok(Expression::Identifier(owned("print"))), pos + 1),
        Token::Println | Token::PrintlnZh => (Ok(Expression::Identifier(owned("println"))), pos + 1),
        Token::LBrace => {
            let (r, q) = block_from(toks, pos + 1, Vec::new());
            match r {
                Err(e) => (Err(e), q),
                Ok(stmts) => {
                    let (a, q2) = advance(toks, q);
                    match a {
                        Err(e) => (Err(e), q2),
                        Ok(_) => (Ok(Expression::Block(stmts)), q2),
                    }
                },
            }
        },
        Token::LBracket => {
            let (r, q) = if at(toks, pos + 1, &Token::RBracket) {
                (Ok(Vec::new()), pos + 1)
            } else {
                exprs_from(toks, pos + 1, Vec::new())
            };
            match r {
                Err(e) => (Err(e), q),
                Ok(items) => {
                    let (x, q2) = expect(toks, q, &Token::RBracket);
                    match x {
                        Err(e) => (Err(e), q2),
                        Ok(_) => (Ok(Expression::Array(items)), q2),
                    }
                },
            }
        },
        Token::Return => {
            if !at(toks, pos + 1, &Token::Semicolon) && pos + 1 < toks.len() && !at(toks, pos + 1, &Token::RBrace) {
                let (r, q) = expression_from(toks, pos + 1);
                match r {
                    Err(e) => (Err(e), q),
                    Ok(v) => {
                        let s = Statement::Return(Some(v));
                        let mut b: Vec<Statement> = Vec::new();
                        b.push(s);
                        proof {
                            lemma_svs_push(Seq::empty(), s);
                            assert(b@ =~= Seq::<Statement>::empty().push(s));
                        }
                        (Ok(Expression::Block(b)), q)
                    },
                }
            } else {
                let s = Statement::Return(None);
                let mut b: Vec<Statement> = Vec::new();
                b.push(s);
                proof {
                    lemma_svs_push(Seq::empty(), s);
                    assert(b@ =~= Seq::<Statement>::empty().push(s));
                }
                (Ok(Expression::Block(b)), pos + 1)
            }
        },
        Token::Identifier(name) => {
            if at(toks, pos + 1, &Token::Colon) && at(toks, pos + 2, &Token::Colon) {
                path_from(toks, pos)
            } else {
                (Ok(Expression::Identifier(name.clone())), pos + 1)
            }
        },
        Token::LParen => paren_from(toks, pos + 1),
        t => match plain_literal_of(t) {
            Some(l) => (Ok(Expression::Literal(l)), pos + 1),
            None => (Err(ParserError::UnexpectedToken { expected: owned("expression"), found: Found::Token(copy_token(t)) }), pos),
        },
    }
}

/// Parses what follows a `(` in a primary; see `paren_at`.
#[verifier::spinoff_prover]
#[verifier::rlimit(80)]
fn paren_from(toks: &Vec<Token>, pos: usize) -> (r: (Result<Expression, ParserError>, usize))
    requires
        pos <= toks@.len(),
    ensures
        (lift_expr(r.0), r.1 as int) == paren_at(toks@, pos as int),
        pos <= r.1 <= toks@.len(),
    decreases toks@.len() - pos, 35int,
{
    proof {
        reveal_strlit("()");
        reveal_strlit("(");
        lemma_empty_views();
    }
    if at(toks, pos, &Token::RParen) {
        if at(toks, pos + 1, &Token::FatArrow) {
            let (b, q) = expression_from(toks, pos + 2);
            match b {
                Ok(body) => (Ok(Expression::Lambda { params: Vec::new(), body: Box::new(body) }), q),
                Err(e) => (Err(e), q),
            }
        } else {
            (Ok(Expression::Identifier(owned("()"))), pos + 1)
        }
    } else if pos >= toks.len() {
        (Err(ParserError::UnexpectedEof), pos)
    } else if matches!(toks[pos], Token::Identifier(_) | Token::Colon) {
        let (pr, q) = lparams_from(toks, pos, Vec::new());
        let params = match pr {
            Err(e) => {
                return (Err(e), q);
            },
            Ok(ps) => ps,
        };
        let (x, q2) = expect(toks, q, &Token::RParen);
        if let Err(e) = x {
            return (Err(e), q2);
        }
        if at(toks, q2, &Token::FatArrow) {
            let (b, q3) = expression_from(toks, q2 + 1);
            match b {
                Ok(body) => (Ok(Expression::Lambda { params, body: Box::new(body) }), q3),
                Err(e) => (Err(e), q3),
            }
        } else {
            (Ok(Expression::Identifier(owned("("))), q2)
        }
    } else {
        let (r, q) = expression_from(toks, pos);
        match r {
            Err(e) => (Err(e), q),
            Ok(e) => {
                let (x, q2) = expect(toks, q, &Token::RParen);
                match x {
                    Ok(_) => (Ok(e), q2),
                    Err(err) => (Err(err), q2),
                }
            },
        }
    }
}

/// Parses a path and its postfix operators; see `path_at`.
fn path_from(toks: &Vec<Token>, pos: usize) -> (r: (Result<Expression, ParserError>, usize))
    requires
        pos <= toks@.len(),
    ensures
        (lift_expr(r.0), r.1 as int) == path_at(toks@, pos as int),
        pos <= r.1 <= toks@.len(),
    decreases toks@.len() - pos, 10int,
{
    proof {
        reveal_strlit("identifier");
    }
    if pos >= toks.len() {
        return (Err(ParserError::UnexpectedEof), pos);
    }
    match &toks[pos] {
        Token::Identifier(name) => {
            let (r, p2) = path_loop_from(toks, pos + 1, name.clone());
            match r {
                Err(e) => (Err(e), p2),
                Ok(path) => postfix_from(toks, p2, Expression::Identifier(path)),
            }
        },
        t => (Err(ParserError::UnexpectedToken { expected: owned("identifier"), found: Found::Token(copy_token(t)) }), pos),
    }
}

/// Parses postfix operators after `e`; see `postfix_at`.
#[verifier::spinoff_prover]
#[verifier::rlimit(80)]
fn postfix_from(toks: &Vec<Token>, pos: usize, e: Expression) -> (r: (Result<Expression, ParserError>, usize))
    requires
        pos <= toks@.len(),
    ensures
        (lift_expr(r.0), r.1 as int) == postfix_at(toks@, pos as int, ev(e)),
        pos <= r.1 <= toks@.len(),
    decreases toks@.len() - pos, 8int,
{
    proof {
        reveal_strlit("identifier");
        reveal_strlit("struct type name");
        lemma_empty_views();
    }
    if at(toks, pos, &Token::LParen) {
        let (ar, p2) = if at(toks, pos + 1, &Token::RParen) {
            (Ok(Vec::new()), pos + 1)
        } else {
            exprs_from(toks, pos + 1, Vec::new())
        };
        let args = match ar {
            Err(err) => {
                return (Err(err), p2);
            },
            Ok(a) => a,
        };
        let (x, p3) = expect(toks, p2, &Token::RParen);
        if let Err(err) = x {
            return (Err(err), p3);
        }
        postfix_from(toks, p3, Expression::Call { callee: Box::new(e), args })
    } else if at(toks, pos, &Token::LBracket) {
        let (ir, p2) = expression_from(toks, pos + 1);
        let index = match ir {
            Err(err) => {
                return (Err(err), p2);
            },
            Ok(i) => i,
        };
        let (x, p3) = expect(toks, p2, &Token::RBracket);
        if let Err(err) = x {
            return (Err(err), p3);
        }
        postfix_from(toks, p3, Expression::Index { array: Box::new(e), index: Box::new(index) })
    } else if at(toks, pos, &Token::Dot) {
        let (a, p2) = advance(toks, pos + 1);
        match a {
            Err(err) => (Err(err), p2),
            Ok(Token::Identifier(f)) => postfix_from(toks, p2, Expression::FieldAccess { expr: Box::new(e), field: f }),
            Ok(other) => (Err(ParserError::UnexpectedToken { expected: owned("identifier"), found: Found::Token(other) }), p2),
        }
    } else if at(toks, pos, &Token::LBrace) {
        let (fr, p2) = slit_from(toks, pos + 1, Vec::new());
        let fields = match fr {
            Err(err) => {
                return (Err(err), p2);
            },
            Ok(f) => f,
        };
        let (x, p3) = expect(toks, p2, &Token::RBrace);
        if let Err(err) = x {
            return (Err(err), p3);
        }
        match e {
            Expression::Identifier(n) => postfix_from(toks, p3, Expression::Struct { name: n, fields }),
            other => (Err(ParserError::UnexpectedToken { expected: owned("struct type name"), found: Found::Expression(other) }), p3),
        }
    } else {
        (Ok(e), pos)
    }
}

/// Parses comma-separated expressions; see `exprs_at`.
fn exprs_from(toks: &Vec<Token>, pos: usize, acc: Vec<Expression>) -> (r: (Result<Vec<Expression>, ParserError>, usize))
    requires
        pos <= toks@.len(),
    ensures
        (lift_exprs(r.0), r.1 as int) == exprs_at(toks@, pos as int, evs(acc@)),
        pos <= r.1 <= toks@.len(),
    decreases toks@.len() - pos, 36int,
{
    let (r, p) = expression_from(toks, pos);
    match r {
        Err(e) => (Err(e), p),
        Ok(x) => {
            let mut acc2 = acc;
            proof {
                lemma_evs_push(acc2@, x);
            }
            acc2.push(x);
            if at(toks, p, &Token::Comma) {
                exprs_from(toks, p + 1, acc2)
            } else {
                (Ok(acc2), p)
            }
        },
    }
}

/// Parses struct literal fields; see `slit_at`.
#[verifier::spinoff_prover]
#[verifier::rlimit(80)]
fn slit_from(toks: &Vec<Token>, pos: usize, acc: Vec<(String, Expression)>) -> (r: (Result<Vec<(String, Expression)>, ParserError>, usize))
    requires
        pos <= toks@.len(),
    ensures
        (lift_fexprs(r.0), r.1 as int) == slit_at(toks@, pos as int, fevs(acc@)),
        pos <= r.1 <= toks@.len(),
    decreases toks@.len() - pos, 36int,
{
    proof {
        reveal_strlit("field name");
    }
    if at(toks, pos, &Token::RBrace) {
        return (Ok(acc), pos);
    }
    let (a, p1) = advance(toks, pos);
    match a {
        Err(e) => (Err(e), p1),
        Ok(Token::Identifier(n)) => {
            let (x, p2) = expect(toks, p1, &Token::Colon);
            if let Err(e) = x {
                return (Err(e), p2);
            }
            let (v, p3) = expression_from(toks, p2);
            match v {
                Err(e) => (Err(e), p3),
                Ok(value) => {
                    let mut acc2 = acc;
                    let item = (n, value);
                    proof {
                        lemma_fevs_push(acc2@, item);
                    }
                    acc2.push(item);
                    if at(toks, p3, &Token::Comma) {
                        slit_from(toks, p3 + 1, acc2)
                    } else if !at(toks, p3, &Token::RBrace) {
                        (Ok(acc2), p3)
                    } else {
                        slit_from(toks, p3, acc2)
                    }
                },
            }
        },
        Ok(other) => (Err(ParserError::UnexpectedToken { expected: owned("field name"), found: Found::Token(other) }), p1),
    }
}

/// Parses a pattern; see `pattern_at`.
fn pattern_from(toks: &Vec<Token>, pos: usize) -> (r: (Result<Expression, ParserError>, usize))
    requires
        pos <= toks@.len(),
    ensures
        (lift_expr(r.0), r.1 as int) == pattern_at(toks@, pos as int),
        pos <= r.1 <= toks@.len(),
    decreases toks@.len() - pos, 11int,
{
    proof {
        reveal_strlit("_");
        reveal_strlit("pattern");
    }
    if pos >= toks.len() {
        return (Err(ParserError::UnexpectedEof), pos);
    }
    match &toks[pos] {
        Token::Identifier(n) => {
            if crate::text::str_eq(n.as_str(), "_") {
                (Ok(Expression::Identifier(owned("_"))), pos + 1)
            } else {
                path_from(toks, pos)
            }
        },
        Token::LParen => {
            let (r, p) = pattern_from(toks, pos + 1);
            match r {
                Err(e) => (Err(e), p),
                Ok(pt) => {
                    let (x, p2) = expect(toks, p, &Token::RParen);
                    match x {
                        Ok(_) => (Ok(pt), p2),
                        Err(e) => (Err(e), p2),
                    }
                },
            }
        },
        t => match plain_literal_of(t) {
            Some(l) => (Ok(Expression::Literal(l)), pos + 1),
            None => (Err(ParserError::UnexpectedToken { expected: owned("pattern"), found: Found::Token(copy_token(t)) }), pos),
        },
    }
}

/// Parses an `if` after its keyword; see `if_at`.
#[verifier::spinoff_prover]
#[verifier::rlimit(80)]
fn if_from(toks: &Vec<Token>, pos: usize) -> (r: (Result<Expression, ParserError>, usize))
    requires
        pos <= toks@.len(),
    ensures
        (lift_expr(r.0), r.1 as int) == if_at(toks@, pos as int),
        pos <= r.1 <= toks@.len(),
    decreases toks@.len() - pos, 36int,
{
    let (c, p1) = level_from(toks, pos, 0);
    let condition = match c {
        Err(e) => {
            return (Err(e), p1);
        },
        Ok(c) => c,
    };
    let (x, p2) = expect(toks, p1, &Token::Colon);
    if let Err(e) = x {
        return (Err(e), p2);
    }
    let (t, p3) = expression_from(toks, p2);
    let then_branch = match t {
        Err(e) => {
            return (Err(e), p3);
        },
        Ok(t) => t,
    };
    if at(toks, p3, &Token::Elif) || at(toks, p3, &Token::ElifZh) {
        let (r, q) = if_from(toks, p3 + 1);
        match r {
            Ok(x) => (Ok(Expression::If { condition: Box::new(condition), then_branch: Box::new(then_branch), else_branch: Some(Box::new(x)) }), q),
            Err(e) => (Err(e), q),
        }
    } else if at(toks, p3, &Token::Else) || at(toks, p3, &Token::ElseZh) {
        let (y, q) = expect(toks, p3 + 1, &Token::Colon);
        if let Err(e) = y {
            return (Err(e), q);
        }
        let (r, q2) = expression_from(toks, q);
        match r {
            Ok(x) => (Ok(Expression::If { condition: Box::new(condition), then_branch: Box::new(then_branch), else_branch: Some(Box::new(x)) }), q2),
            Err(e) => (Err(e), q2),
        }
    } else {
        (Ok(Expression::If { condition: Box::new(condition), then_branch: Box::new(then_branch), else_branch: None }), p3)
    }
}

/// Parses a `match` after its keyword; see `match_at`.
#[verifier::spinoff_prover]
#[verifier::rlimit(80)]
fn match_from(toks: &Vec<Token>, pos: usize) -> (r: (Result<Expression, ParserError>, usize))
    requires
        pos <= toks@.len(),
    ensures
        (lift_expr(r.0), r.1 as int) == match_at(toks@, pos as int),
        pos <= r.1 <= toks@.len(),
    decreases toks@.len() - pos, 36int,
{
    proof {
        lemma_empty_views();
    }
    let (r, p1) = expression_from(toks, pos);
    let x = match r {
        Err(e) => {
            return (Err(e), p1);
        },
        Ok(x) => x,
    };
    let (y, p2) = expect(toks, p1, &Token::Colon);
    if let Err(e) = y {
        return (Err(e), p2);
    }
    let (cr, p3) = cases_from(toks, p2, Vec::new());
    match cr {
        Ok(cases) => (Ok(Expression::Match { expr: Box::new(x), cases }), p3),
        Err(e) => (Err(e), p3),
    }
}

/// Parses match arms; see `cases_at`.
#[verifier::spinoff_prover]
#[verifier::rlimit(80)]
fn cases_from(toks: &Vec<Token>, pos: usize, acc: Vec<MatchCase>) -> (r: (Result<Vec<MatchCase>, ParserError>, usize))
    requires
        pos <= toks@.len(),
    ensures
        (lift_cases(r.0), r.1 as int) == cases_at(toks@, pos as int, cvs(acc@)),
        pos <= r.1 <= toks@.len(),
    decreases toks@.len() - pos, 36int,
{
    if pos >= toks.len() || matches!(toks[pos], Token::RParen | Token::RBrace | Token::Else) {
        return (Ok(acc), pos);
    }
    let (pr, p1) = pattern_from(toks, pos);
    let pattern = match pr {
        Err(e) => {
            return (Err(e), p1);
        },
        Ok(pt) => pt,
    };
    let (gr, q): (Result<Option<Expression>, ParserError>, usize) = if at(toks, p1, &Token::If) {
        let (r, q) = expression_from(toks, p1 + 1);
        (match r { Ok(g) => Ok(Some(g)), Err(e) => Err(e) }, q)
    } else {
        (Ok(None), p1)
    };
    let guard = match gr {
        Err(e) => {
            return (Err(e), q);
        },
        Ok(g) => g,
    };
    let (x, p2) = expect(toks, q, &Token::FatArrow);
    if let Err(e) = x {
        return (Err(e), p2);
    }
    let (b, p3) = expression_from(toks, p2);
    let body = match b {
        Err(e) => {
            return (Err(e), p3);
        },
        Ok(b) => b,
    };
    let mut acc2 = acc;
    let c = MatchCase { pattern, guard, body };
    proof {
        lemma_cvs_push(acc2@, c);
    }
    acc2.push(c);
    let p4 = if at(toks, p3, &Token::Comma) { p3 + 1 } else { p3 };
    cases_from(toks, p4, acc2)
}


// ---------------------------------------------------------------------------
// Operators by their written symbols.
// ---------------------------------------------------------------------------

/// The symbol an operator token is written with, padded with spaces to
/// three characters; blank for other tokens.
pub open spec fn token_symbol(t: Token) -> (char, char, char) {
    match t {
        Token::Plus => ('+', ' ', ' '),
        Token::Minus => ('-', ' ', ' '),
        Token::Star => ('*', ' ', ' '),
        Token::Slash => ('/', ' ', ' '),
        Token::Percent => ('%', ' ', ' '),
        Token::Eq => ('=', '=', ' '),
        Token::Ne => ('!', '=', ' '),
        Token::Lt => ('<', ' ', ' '),
        Token::Le => ('<', '=', ' '),
        Token::Gt => ('>', ' ', ' '),
        Token::Ge => ('>', '=', ' '),
        Token::And => ('&', '&', ' '),
        Token::Or => ('|', '|', ' '),
        Token::Not => ('!', ' ', ' '),
        Token::Ampersand => ('&', ' ', ' '),
        Token::Assign => ('=', ' ', ' '),
        Token::AddAssign => ('+', '=', ' '),
        Token::SubAssign => ('-', '=', ' '),
        Token::MulAssign => ('*', '=', ' '),
        Token::DivAssign => ('/', '=', ' '),
        Token::ModAssign => ('%', '=', ' '),
        Token::Range => ('.', '.', ' '),
        Token::RangeInclusive => ('.', '.', '='),
        _ => (' ', ' ', ' '),
    }
}

/// The symbol a binary operator is written with.
pub open spec fn op_symbol(op: BinaryOperator) -> (char, char, char) {
    match op {
        BinaryOperator::Add => ('+', ' ', ' '),
        BinaryOperator::Sub => ('-', ' ', ' '),
        BinaryOperator::Mul => ('*', ' ', ' '),
        BinaryOperator::Div => ('/', ' ', ' '),
        BinaryOperator::Mod => ('%', ' ', ' '),
        BinaryOperator::Eq => ('=', '=', ' '),
        BinaryOperator::Ne => ('!', '=', ' '),
        BinaryOperator::Lt => ('<', ' ', ' '),
        BinaryOperator::Le => ('<', '=', ' '),
        BinaryOperator::Gt => ('>', ' ', ' '),
        BinaryOperator::Ge => ('>', '=', ' '),
        BinaryOperator::And => ('&', '&', ' '),
        BinaryOperator::Or => ('|', '|', ' '),
        BinaryOperator::Range => ('.', '.', ' '),
        BinaryOperator::RangeInclusive => ('.', '.', '='),
        BinaryOperator::Assign => ('=', ' ', ' '),
        BinaryOperator::AddAssign => ('+', '=', ' '),
        BinaryOperator::SubAssign => ('-', '=', ' '),
        BinaryOperator::MulAssign => ('*', '=', ' '),
        BinaryOperator::DivAssign => ('/', '=', ' '),
        BinaryOperator::ModAssign => ('%', '=', ' '),
    }
}

/// The symbol a prefix operator is written with.
pub open spec fn unary_symbol(op: UnaryOperator) -> (char, char, char) {
    match op {
        UnaryOperator::Not => ('!', ' ', ' '),
        UnaryOperator::Neg => ('-', ' ', ' '),
        UnaryOperator::Ref => ('&', ' ', ' '),
        UnaryOperator::Deref => ('*', ' ', ' '),
    }
}

/// The precedence level of an infix operator, loosest first: 0 `||`,
/// 1 `&&`, 2 equality, 3 comparison, 5 additive, 6 multiplicative.
pub open spec fn op_level(op: BinaryOperator) -> int {
    match op {
        BinaryOperator::Or => 0,
        BinaryOperator::And => 1,
        BinaryOperator::Eq | BinaryOperator::Ne => 2,
        BinaryOperator::Lt | BinaryOperator::Le | BinaryOperator::Gt | BinaryOperator::Ge => 3,
        BinaryOperator::Add | BinaryOperator::Sub => 5,
        BinaryOperator::Mul | BinaryOperator::Div | BinaryOperator::Mod => 6,
        _ => -1,
    }
}

/// The arithmetic operators.
pub open spec fn is_arith_op(op: BinaryOperator) -> bool {
    op == BinaryOperator::Add || op == BinaryOperator::Sub || op == BinaryOperator::Mul || op == BinaryOperator::Div
        || op == BinaryOperator::Mod
}

/// How operator tokens are read: `=` is a plain assignment; a compound
/// assignment token `op=` (and only such a token) stands for the
/// arithmetic operator written `op`; an infix token at a level stands for
/// the operator with the same symbol at that level, and every operator of
/// the level is read from the token with its symbol; a prefix token stands
/// for the prefix operator with the same symbol.
#[verifier::spinoff_prover]
#[verifier::rlimit(80)]
pub proof fn lemma_operator_tokens(t: Token, op: BinaryOperator, u: UnaryOperator, lvl: int)
    ensures
        assign_op(t) == Some(None::<BinaryOperator>) <==> t == Token::Assign,
        assign_op(t) == Some(Some(op)) ==> is_arith_op(op) && token_symbol(t) == (op_symbol(op).0, '=', ' '),
        is_unit(t) && is_arith_op(op) && token_symbol(t) == (op_symbol(op).0, '=', ' ') ==> assign_op(t) == Some(Some(op)),
        level_op(lvl, t) == Some(op) ==> op_level(op) == lvl && token_symbol(t) == op_symbol(op),
        is_unit(t) && op_level(op) >= 0 && op_level(op) == lvl && token_symbol(t) == op_symbol(op) ==> level_op(lvl, t) == Some(op),
        unary_op(t) == Some(u) ==> token_symbol(t) == unary_symbol(u),
        is_unit(t) && token_symbol(t) == unary_symbol(u) ==> unary_op(t) == Some(u),
{
}


/// Tokens are read by what they name: a `true` or `false` token (in either
/// spelling) is the boolean of its name; a keyword taken as a variant or
/// path name gives the name it is written with (its name up to any
/// `Keyword` suffix); a type keyword gives its own name.
pub proof fn lemma_token_names(t: Token)
    ensures
        plain_literal(t) == Some(LitV::Boolean(true)) <==> (t is True || t is TrueZh),
        plain_literal(t) == Some(LitV::Boolean(false)) <==> (t is False || t is FalseZh),
        plain_literal(t) matches Some(LitV::Boolean(b)) ==> unit_name(t).take(if b { 4int } else { 5int })
            == (if b { "True"@ } else { "False"@ }),
        !(t is Identifier) ==> (variant_name(t) matches Some(n) ==> unit_name(t).len() >= n.len() && unit_name(t).take(
            n.len() as int) == n),
        !(t is Identifier) ==> (base_name(t) matches Some(n) ==> unit_name(t) == n),
{
    reveal_strlit("True");
    reveal_strlit("TrueZh");
    reveal_strlit("False");
    reveal_strlit("FalseZh");
    reveal_strlit("Error");
    reveal_strlit("ErrorKeyword");
    reveal_strlit("Ok");
    reveal_strlit("Some");
    reveal_strlit("None");
    reveal_strlit("Box");
    reveal_strlit("Rc");
    reveal_strlit("Arc");
    reveal_strlit("List");
    reveal_strlit("Result");
    reveal_strlit("Option");
    match t {
        Token::True => assert("True"@.take(4) =~= "True"@),
        Token::TrueZh => assert("TrueZh"@.take(4) =~= "True"@),
        Token::False => assert("False"@.take(5) =~= "False"@),
        Token::FalseZh => assert("FalseZh"@.take(5) =~= "False"@),
        Token::ErrorKeyword => assert("ErrorKeyword"@.take(5) =~= "Error"@),
        Token::OkKw => assert("Ok"@.take(2) =~= "Ok"@),
        Token::SomeKw => assert("Some"@.take(4) =~= "Some"@),
        Token::NoneKw => assert("None"@.take(4) =~= "None"@),
        Token::Box => assert("Box"@.take(3) =~= "Box"@),
        Token::Rc => assert("Rc"@.take(2) =~= "Rc"@),
        Token::Arc => assert("Arc"@.take(3) =~= "Arc"@),
        _ => {},
    }
}

} // verus!
