//! Rendering of emitted code as text. Blocks are laid out by the `codegen`
//! crate: the braces, the line breaks and the indentation are its work.

use vstd::prelude::*;
use vstd::string::*;
use codegen::{Block, Formatter};
use crate::code::{opt_view, views, Code, CodeView};

verus! {

/// `codegen::Block`: a value that is carried through and never looked into.
#[verifier::external_type_specification]
#[verifier::external_body]
pub struct ExBlock(codegen::Block);

/// What a `codegen::Block` holds: the text it opens with, the lines and
/// blocks of its body in order, and the text it closes with, if any.
pub uninterp spec fn block_code(b: Block) -> CodeView;

/// The text that `Block::fmt` writes through a new `Formatter` for a block
/// that holds `code`: the layout of `codegen`, with its braces, line breaks
/// and indentation.
pub uninterp spec fn block_text(code: CodeView) -> Seq<char>;

/// A block with one more item at the end of its body.
pub open spec fn with_item(block: CodeView, item: CodeView) -> CodeView {
    match block {
        CodeView::Block(before, body, after) => CodeView::Block(before, body.push(item), after),
        CodeView::Line(_) => block,
    }
}

/// A block with its closing text replaced.
pub open spec fn with_after(block: CodeView, after: Seq<char>) -> CodeView {
    match block {
        CodeView::Block(before, body, _) => CodeView::Block(before, body, Some(after)),
        CodeView::Line(_) => block,
    }
}

/// `Block::new`: the block that opens with `before`, with an empty body and
/// no closing text.
#[verifier::external_body]
fn block_new(before: &str) -> (b: Block)
    ensures
        block_code(b) == CodeView::Block(before@, Seq::empty(), None),
{
    Block::new(before)
}

/// `Block::line`: adds one line at the end of the body and leaves the rest
/// of the block as it was.
#[verifier::external_body]
fn block_line(b: &mut Block, text: &str)
    ensures
        block_code(*final(b)) == with_item(block_code(*old(b)), CodeView::Line(text@)),
{
    b.line(text);
}

/// `Block::push_block`: adds `inner`, whole, at the end of the body and
/// leaves the rest of the block as it was.
#[verifier::external_body]
fn block_push_block(b: &mut Block, inner: Block)
    ensures
        block_code(*final(b)) == with_item(block_code(*old(b)), block_code(inner)),
{
    b.push_block(inner);
}

/// `Block::after`: sets the text that follows the closing brace.
#[verifier::external_body]
fn block_after(b: &mut Block, after: &str)
    ensures
        block_code(*final(b)) == with_after(block_code(*old(b)), after@),
{
    b.after(after);
}

/// `Block::fmt` with a new `Formatter` on an empty text: the result is the
/// text written, which depends on what the block holds and on nothing else.
#[verifier::external_body]
fn block_to_string(b: &Block) -> (text: String)
    ensures
        text@ == block_text(block_code(*b)),
{
    let mut text = String::new();
    let _ = b.fmt(&mut Formatter::new(&mut text));
    text
}

/// Builds the `codegen` block that opens with `before`, holds `body` and
/// closes with `after`.
fn to_block(before: &str, body: &Vec<Code>, after: &Option<String>) -> (b: Block)
    ensures
        block_code(b) == CodeView::Block(before@, views(body@), opt_view(*after)),
    decreases body,
{
    let mut b = block_new(before);
    let mut i: usize = 0;
    assert(views(body@).take(0) =~= Seq::empty());
    while i < body.len()
        invariant
            i <= body.len(),
            block_code(b) == CodeView::Block(before@, views(body@).take(i as int), None),
        decreases body.len() - i,
    {
        match &body[i] {
            Code::Line(text) => {
                block_line(&mut b, text.as_str());
            },
            Code::Block(inner_before, inner_body, inner_after) => {
                let inner = to_block(inner_before.as_str(), inner_body, inner_after);
                block_push_block(&mut b, inner);
            },
        }
        assert(views(body@).take(i + 1) =~= views(body@).take(i as int).push(body[i as int]@));
        i += 1;
    }
    assert(views(body@).take(body.len() as int) =~= views(body@));
    match after {
        Some(text) => {
            block_after(&mut b, text.as_str());
        },
        None => {},
    }
    b
}

/// The text of one piece of code at the top level: a line is followed by a
/// line break, a block is laid out by `codegen`.
pub open spec fn item_text(item: CodeView) -> Seq<char> {
    match item {
        CodeView::Line(text) => text + "\n"@,
        CodeView::Block(_, _, _) => block_text(item),
    }
}

/// The text of a list of pieces of code at the top level: the texts of its
/// items, one after another.
pub open spec fn code_text(items: Seq<CodeView>) -> Seq<char>
    decreases items.len(),
{
    if items.len() == 0 {
        Seq::empty()
    } else {
        code_text(items.drop_last()) + item_text(items.last())
    }
}

/// Renders a list of pieces of code as text.
pub fn render(items: &Vec<Code>) -> (text: String)
    ensures
        text@ == code_text(views(items@)),
{
    let mut text = String::new();
    let mut i: usize = 0;
    while i < items.len()
        invariant
            i <= items.len(),
            text@ == code_text(views(items@).take(i as int)),
        decreases items.len() - i,
    {
        match &items[i] {
            Code::Line(line) => {
                text.append(line.as_str());
                text.append("\n");
            },
            Code::Block(before, body, after) => {
                let block = to_block(before.as_str(), body, after);
                let laid_out = block_to_string(&block);
                text.append(laid_out.as_str());
            },
        }
        proof {
            let next = views(items@).take(i + 1);
            assert(next.drop_last() =~= views(items@).take(i as int));
            assert(next.last() == items[i as int]@);
        }
        i += 1;
    }
    assert(views(items@).take(items.len() as int) =~= views(items@));
    text
}

} // verus!
