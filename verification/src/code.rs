//! Emitted code as a tree of lines and brace-delimited blocks, and the
//! constructs of the target language that the compiler builds it from.

use vstd::prelude::*;
use vstd::string::*;
use crate::text::{cat2, cat3};

verus! {

/// A piece of emitted code: one line of text, or a block that opens with
/// `before`, holds `body` between braces and closes with `after`.
#[derive(Debug, PartialEq, Eq)]
pub enum Code {
    Line(String),
    Block(String, Vec<Code>, Option<String>),
}

/// The mathematical value of a `Code`.
pub enum CodeView {
    Line(Seq<char>),
    Block(Seq<char>, Seq<CodeView>, Option<Seq<char>>),
}

/// The view of an optional string.
pub open spec fn opt_view(s: Option<String>) -> Option<Seq<char>> {
    match s {
        Some(t) => Some(t@),
        None => None,
    }
}

/// The views of a list of pieces of code, in order.
pub open spec fn views(items: Seq<Code>) -> Seq<CodeView>
    decreases items,
{
    Seq::new(items.len(), |i: int| if 0 <= i < items.len() { items[i].view() } else { arbitrary() })
}

impl View for Code {
    type V = CodeView;

    open spec fn view(&self) -> CodeView
        decreases self,
    {
        match self {
            Code::Line(text) => CodeView::Line(text@),
            Code::Block(before, body, after) => CodeView::Block(
                before@,
                views(body@),
                opt_view(*after),
            ),
        }
    }
}

/// `let name = value;`
pub open spec fn let_stmt_code(name: Seq<char>, value: Seq<char>) -> CodeView {
    CodeView::Line("let "@ + name + " = "@ + value + ";"@)
}

/// `let mut name = value;`
pub open spec fn let_mut_stmt_code(name: Seq<char>, value: Seq<char>) -> CodeView {
    CodeView::Line("let mut "@ + name + " = "@ + value + ";"@)
}

/// `let name = { body };`
pub open spec fn let_block_code(name: Seq<char>, body: Seq<CodeView>) -> CodeView {
    CodeView::Block("let "@ + name + " ="@, body, Some(";"@))
}

/// `match expr { arms }`
pub open spec fn match_block_code(expr: Seq<char>, arms: Seq<CodeView>) -> CodeView {
    CodeView::Block("match "@ + expr, arms, None)
}

/// The arm `pattern => { body }`.
pub open spec fn match_case_code(pattern: Seq<char>, body: Seq<CodeView>) -> CodeView {
    CodeView::Block(pattern + " =>"@, body, None)
}

/// The arm `pattern => value,`.
pub open spec fn match_inline_case_code(pattern: Seq<char>, value: Seq<char>) -> CodeView {
    CodeView::Line(pattern + " => "@ + value + ","@)
}

/// `if cond { then_body }` followed by `else { else_body }`.
pub open spec fn if_else_code(
    cond: Seq<char>,
    then_body: Seq<CodeView>,
    else_body: Seq<CodeView>,
) -> Seq<CodeView> {
    seq![CodeView::Block("if "@ + cond, then_body, None), CodeView::Block("else"@, else_body, None)]
}

/// `loop { body }`
pub open spec fn loop_block_code(body: Seq<CodeView>) -> CodeView {
    CodeView::Block("loop"@, body, None)
}

/// The definition of the function `name`, public or private, with the
/// parameter list `args`, the result type `ret` and the given body.
pub open spec fn def_fn_code(
    public: bool,
    name: Seq<char>,
    args: Seq<char>,
    ret: Seq<char>,
    body: Seq<CodeView>,
) -> CodeView {
    CodeView::Block(
        (if public {
            "pub fn "@
        } else {
            "fn "@
        }) + name + "("@ + args + ") -> "@ + ret,
        body,
        None,
    )
}

/// One line of code.
pub fn text_line(text: &str) -> (code: Code)
    ensures
        code@ == CodeView::Line(text@),
{
    Code::Line(String::from_str(text))
}

/// A binding of `name` to `value`.
pub fn let_stmt(name: &str, value: &str) -> (code: Code)
    ensures
        code@ == let_stmt_code(name@, value@),
{
    let head = cat3("let ", name, " = ");
    Code::Line(cat3(head.as_str(), value, ";"))
}

/// A binding of `name` to `value` that can be assigned to later.
pub fn let_mut_stmt(name: &str, value: &str) -> (code: Code)
    ensures
        code@ == let_mut_stmt_code(name@, value@),
{
    let head = cat3("let mut ", name, " = ");
    Code::Line(cat3(head.as_str(), value, ";"))
}

/// A binding of `name` to the value of a block.
pub fn let_block(name: &str, body: Vec<Code>) -> (code: Code)
    ensures
        code@ == let_block_code(name@, views(body@)),
{
    Code::Block(cat3("let ", name, " ="), body, Some(String::from_str(";")))
}

/// A dispatch on the value of `expr`; `arms` holds its cases.
pub fn match_block(expr: &str, arms: Vec<Code>) -> (code: Code)
    ensures
        code@ == match_block_code(expr@, views(arms@)),
{
    Code::Block(cat2("match ", expr), arms, None)
}

/// A case of a dispatch whose handler is a block.
pub fn match_case(pattern: &str, body: Vec<Code>) -> (code: Code)
    ensures
        code@ == match_case_code(pattern@, views(body@)),
{
    Code::Block(cat2(pattern, " =>"), body, None)
}

/// A case of a dispatch whose handler is a single expression.
pub fn match_inline_case(pattern: &str, value: &str) -> (code: Code)
    ensures
        code@ == match_inline_case_code(pattern@, value@),
{
    let head = cat2(pattern, " => ");
    Code::Line(cat3(head.as_str(), value, ","))
}

/// A conditional with both branches.
pub fn if_else(cond: &str, then_body: Vec<Code>, else_body: Vec<Code>) -> (code: Vec<Code>)
    ensures
        views(code@) == if_else_code(cond@, views(then_body@), views(else_body@)),
{
    let mut code: Vec<Code> = Vec::new();
    code.push(Code::Block(cat2("if ", cond), then_body, None));
    code.push(Code::Block(String::from_str("else"), else_body, None));
    assert(views(code@) =~= if_else_code(cond@, views(then_body@), views(else_body@)));
    code
}

/// An unconditional loop; its body leaves it with `break`.
pub fn loop_block(body: Vec<Code>) -> (code: Code)
    ensures
        code@ == loop_block_code(views(body@)),
{
    Code::Block(String::from_str("loop"), body, None)
}

/// A function definition.
pub fn def_fn(public: bool, name: &str, args: &str, ret: &str, body: Vec<Code>) -> (code: Code)
    ensures
        code@ == def_fn_code(public, name@, args@, ret@, views(body@)),
{
    let keyword = if public {
        "pub fn "
    } else {
        "fn "
    };
    let head = cat3(keyword, name, "(");
    let head = cat3(head.as_str(), args, ") -> ");
    Code::Block(cat2(head.as_str(), ret), body, None)
}

/// Appends one piece of code to a list.
pub(crate) fn push_code(list: &mut Vec<Code>, item: Code)
    ensures
        views(final(list)@) == views(old(list)@).push(item@),
{
    list.push(item);
    assert(views(list@) =~= views(old(list)@).push(item@));
}

/// Appends a list of pieces of code to another.
pub(crate) fn append_code(list: &mut Vec<Code>, tail: Vec<Code>)
    ensures
        views(final(list)@) == views(old(list)@) + views(tail@),
{
    let mut tail = tail;
    let ghost added = tail@;
    list.append(&mut tail);
    assert(views(list@) =~= views(old(list)@) + views(added));
}

/// A list of one piece of code.
pub(crate) fn one(a: Code) -> (code: Vec<Code>)
    ensures
        views(code@) == seq![a@],
{
    let mut code: Vec<Code> = Vec::new();
    code.push(a);
    assert(views(code@) =~= seq![a@]);
    code
}

/// A list of two pieces of code.
pub(crate) fn two(a: Code, b: Code) -> (code: Vec<Code>)
    ensures
        views(code@) == seq![a@, b@],
{
    let mut code: Vec<Code> = Vec::new();
    code.push(a);
    code.push(b);
    assert(views(code@) =~= seq![a@, b@]);
    code
}

} // verus!
