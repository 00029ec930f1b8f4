//! The grammar model: rules and the expressions they are built from.

use vstd::prelude::*;
use vstd::string::*;

verus! {

/// A grammar: an optional block of code of the target language, emitted as
/// it is before the functions of the parser, and the rules in the order in
/// which their functions are emitted. Rules may call each other in any order.
#[derive(Debug, PartialEq, Eq)]
pub struct Grammar {
    pub initializer: Option<String>,
    pub rules: Vec<Rule>,
}

/// A named rule. `ret_type` is the type of the value a match produces, as text
/// of the target language; `"()"` stands for a rule that only matches.
#[derive(Debug, PartialEq, Eq)]
pub struct Rule {
    pub name: String,
    pub expr: Box<Expr>,
    pub ret_type: String,
    pub exported: bool,
}

/// One inclusive range of characters of a character class.
#[derive(Clone, Copy, Debug, PartialEq, Eq)]
pub struct CharSetCase {
    pub start: char,
    pub end: char,
}

/// An expression together with the name its value is bound to, if any.
#[derive(Debug, PartialEq, Eq)]
pub struct TaggedExpr {
    pub name: Option<String>,
    pub expr: Box<Expr>,
}

/// A parsing expression.
#[derive(Debug, PartialEq, Eq)]
pub enum Expr {
    /// Any one character.
    AnyCharExpr,
    /// An exact text.
    LiteralExpr(String),
    /// One character that lies in one of the ranges or, where the flag is
    /// set, in none of them.
    CharSetExpr(bool, Vec<CharSetCase>),
    /// A call of the rule of that name.
    RuleExpr(String),
    /// The expressions one after another.
    SequenceExpr(Vec<Expr>),
    /// The first of the expressions that matches.
    ChoiceExpr(Vec<Expr>),
    /// The expression, or nothing.
    OptionalExpr(Box<Expr>),
    /// The expression as often as it matches.
    ZeroOrMore(Box<Expr>),
    /// The expression as often as it matches, and at least once.
    OneOrMore(Box<Expr>),
    /// The expression repeated with a separator. It has no compilation rule.
    DelimitedExpr(Box<Expr>, Box<Expr>),
    /// The expression as a test: it must match, and nothing is consumed.
    PosAssertExpr(Box<Expr>),
    /// The expression as a test: it must not match, and nothing is consumed.
    NegAssertExpr(Box<Expr>),
    /// The text that the expression matches. It has no compilation rule.
    StringifyExpr(Box<Expr>),
    /// Tagged expressions one after another, and then code of the target
    /// language that gives the value, with the named values and the matched
    /// text at hand.
    ActionExpr(Vec<TaggedExpr>, String),
}

impl Rule {
    /// Whether the rule's expression is supported.
    pub open spec fn supported(self) -> bool {
        self.expr.supported()
    }

    /// Whether the rule's value is used: it is not where the rule's type is
    /// the unit type.
    pub open spec fn value_used(self) -> bool {
        self.ret_type@ != "()"@
    }

    /// Decides `value_used`.
    pub fn is_value_used(&self) -> (used: bool)
        ensures
            used == self.value_used(),
    {
        let unit = String::from_str("()");
        self.ret_type != unit
    }
}

impl Grammar {
    /// Whether every rule of the grammar is supported.
    pub open spec fn supported(self) -> bool {
        forall|i: int| 0 <= i < self.rules.len() ==> (#[trigger] self.rules[i]).supported()
    }

    /// Decides `supported`.
    pub fn is_supported(&self) -> (ok: bool)
        ensures
            ok == self.supported(),
    {
        let mut i: usize = 0;
        while i < self.rules.len()
            invariant
                i <= self.rules.len(),
                forall|j: int| 0 <= j < i ==> (#[trigger] self.rules[j]).supported(),
            decreases self.rules.len() - i,
        {
            if !self.rules[i].expr.is_supported() {
                return false;
            }
            i += 1;
        }
        true
    }
}

impl Expr {
    /// Whether every node of the expression has a compilation rule, that is,
    /// whether it holds neither a delimited repetition nor a stringify node.
    pub open spec fn supported(self) -> bool
        decreases self,
    {
        match self {
            Expr::AnyCharExpr => true,
            Expr::LiteralExpr(_) => true,
            Expr::CharSetExpr(_, _) => true,
            Expr::RuleExpr(_) => true,
            Expr::SequenceExpr(exprs) => forall|i: int|
                0 <= i < exprs.len() ==> (#[trigger] exprs[i]).supported(),
            Expr::ChoiceExpr(exprs) => forall|i: int|
                0 <= i < exprs.len() ==> (#[trigger] exprs[i]).supported(),
            Expr::OptionalExpr(e) => e.supported(),
            Expr::ZeroOrMore(e) => e.supported(),
            Expr::OneOrMore(e) => e.supported(),
            Expr::DelimitedExpr(_, _) => false,
            Expr::PosAssertExpr(e) => e.supported(),
            Expr::NegAssertExpr(e) => e.supported(),
            Expr::StringifyExpr(_) => false,
            Expr::ActionExpr(tagged, _) => forall|i: int|
                0 <= i < tagged.len() ==> (#[trigger] tagged[i]).expr.supported(),
        }
    }

    /// Decides `supported`.
    pub fn is_supported(&self) -> (ok: bool)
        ensures
            ok == self.supported(),
        decreases self,
    {
        match self {
            Expr::AnyCharExpr => true,
            Expr::LiteralExpr(_) => true,
            Expr::CharSetExpr(_, _) => true,
            Expr::RuleExpr(_) => true,
            Expr::SequenceExpr(exprs) => all_supported(exprs),
            Expr::ChoiceExpr(exprs) => all_supported(exprs),
            Expr::OptionalExpr(e) => e.is_supported(),
            Expr::ZeroOrMore(e) => e.is_supported(),
            Expr::OneOrMore(e) => e.is_supported(),
            Expr::DelimitedExpr(_, _) => false,
            Expr::PosAssertExpr(e) => e.is_supported(),
            Expr::NegAssertExpr(e) => e.is_supported(),
            Expr::StringifyExpr(_) => false,
            Expr::ActionExpr(tagged, _) => all_tagged_supported(tagged),
        }
    }
}

/// Decides whether every expression of a list of tagged expressions is supported.
pub fn all_tagged_supported(tagged: &Vec<TaggedExpr>) -> (ok: bool)
    ensures
        ok == forall|i: int| 0 <= i < tagged.len() ==> (#[trigger] tagged[i]).expr.supported(),
    decreases tagged,
{
    let mut i: usize = 0;
    while i < tagged.len()
        invariant
            i <= tagged.len(),
            forall|j: int| 0 <= j < i ==> (#[trigger] tagged[j]).expr.supported(),
        decreases tagged.len() - i,
    {
        if !tagged[i].expr.is_supported() {
            return false;
        }
        i += 1;
    }
    true
}

/// Decides whether every expression of a list is supported.
pub fn all_supported(exprs: &Vec<Expr>) -> (ok: bool)
    ensures
        ok == forall|i: int| 0 <= i < exprs.len() ==> (#[trigger] exprs[i]).supported(),
    decreases exprs,
{
    let mut i: usize = 0;
    while i < exprs.len()
        invariant
            i <= exprs.len(),
            forall|j: int| 0 <= j < i ==> (#[trigger] exprs[j]).supported(),
        decreases exprs.len() - i,
    {
        if !exprs[i].is_supported() {
            return false;
        }
        i += 1;
    }
    true
}

} // verus!
