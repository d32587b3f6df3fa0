//! Markdown text of the abstract document, written out by markdown-ast.
use vstd::prelude::*;
use markdown_ast::{ast_to_markdown, Block as MdBlock, HeadingLevel, Inline, Inlines};
use pulldown_cmark::{Alignment, LinkType};
use crate::anchor::{lower_of, lowercase, push_char};
use crate::document::{crd, crd_ok, crd_supported, Align, Block, Cell, Level};
use crate::schema::{Crd, SchemaError};

verus! {

#[verifier::external_type_specification]
#[verifier::external_body]
pub struct ExMdBlock(MdBlock);

#[verifier::external_type_specification]
#[verifier::external_body]
pub struct ExInlines(markdown_ast::Inlines);

#[verifier::external_type_specification]
#[verifier::external_body]
pub struct ExAlignment(pulldown_cmark::Alignment);

/// Relies on markdown-ast's `Block::Heading` and `Inlines::plain_text`: a
/// heading of one plain-text run.
#[verifier::external_body]
fn md_heading(level: Level, text: &str) -> MdBlock {
    let level = match level {
        Level::H1 => HeadingLevel::H1,
        Level::H2 => HeadingLevel::H2,
        Level::H3 => HeadingLevel::H3,
    };
    MdBlock::Heading(level, Inlines::plain_text(text))
}

/// Relies on markdown-ast's `Block::plain_text_paragraph`.
#[verifier::external_body]
fn md_paragraph(text: &str) -> MdBlock {
    MdBlock::plain_text_paragraph(text)
}

/// Relies on markdown-ast's `Block::Rule`.
#[verifier::external_body]
fn md_rule() -> MdBlock {
    MdBlock::Rule
}

/// Relies on markdown-ast's `Inlines::plain_text`.
#[verifier::external_body]
fn md_text(text: &str) -> Inlines {
    Inlines::plain_text(text)
}

/// Relies on markdown-ast's `Inline::Link`: an inline link to `target`.
#[verifier::external_body]
fn md_link(text: &str, target: &str) -> Inlines {
    Inlines(vec![Inline::Link {
        link_type: LinkType::Inline,
        dest_url: target.to_string(),
        title: String::new(),
        id: String::new(),
        content_text: Inlines::plain_text(text),
    }])
}

/// Relies on pulldown-cmark's `Alignment`.
#[verifier::external_body]
fn md_alignment(a: Align) -> Alignment {
    match a {
        Align::Left => Alignment::Left,
        Align::Center => Alignment::Center,
    }
}

/// Relies on markdown-ast's `Block::Table`.
#[verifier::external_body]
fn md_table(alignments: Vec<Alignment>, headers: Vec<Inlines>, rows: Vec<Vec<Inlines>>) -> MdBlock {
    MdBlock::Table { alignments, headers, rows }
}

/// Relies on markdown-ast's `ast_to_markdown`: the Markdown text of blocks.
#[verifier::external_body]
fn md_render(blocks: &Vec<MdBlock>) -> String {
    ast_to_markdown(blocks.as_slice())
}

fn cell_md(c: &Cell) -> Inlines {
    match c {
        Cell::Text(t) => md_text(t.as_str()),
        Cell::Link { text, target } => md_link(text.as_str(), target.as_str()),
    }
}

fn table_md(alignments: &Vec<Align>, headers: &Vec<String>, rows: &Vec<Vec<Cell>>) -> MdBlock {
    let mut aligns: Vec<Alignment> = Vec::new();
    for i in 0..alignments.len() {
        aligns.push(md_alignment(alignments[i]));
    }
    let mut heads: Vec<Inlines> = Vec::new();
    for i in 0..headers.len() {
        heads.push(md_text(headers[i].as_str()));
    }
    let mut body: Vec<Vec<Inlines>> = Vec::new();
    for i in 0..rows.len() {
        let cells = &rows[i];
        let mut row: Vec<Inlines> = Vec::new();
        for j in 0..cells.len() {
            row.push(cell_md(&cells[j]));
        }
        body.push(row);
    }
    md_table(aligns, heads, body)
}

/// The Markdown text of one block; text that is already Markdown passes
/// through unchanged.
pub fn render_block(b: &Block) -> (r: String)
    ensures
        b is Markdown ==> r@ == b->Markdown_0@,
{
    let md = match b {
        Block::Markdown(t) => return t.clone(),
        Block::Heading { level, text } => md_heading(*level, text.as_str()),
        Block::Paragraph(t) => md_paragraph(t.as_str()),
        Block::Rule => md_rule(),
        Block::Table { alignments, headers, rows } => table_md(alignments, headers, rows),
    };
    let mut one: Vec<MdBlock> = Vec::new();
    one.push(md);
    md_render(&one)
}

/// Parts joined by a blank line.
pub open spec fn join(parts: Seq<Seq<char>>) -> Seq<char>
    decreases parts.len(),
{
    if parts.len() == 0 {
        Seq::empty()
    } else if parts.len() == 1 {
        parts[0]
    } else {
        join(parts.drop_last()) + seq!['\n', '\n'] + parts.last()
    }
}

/// `text` is one rendered part per block, joined by blank lines, where a
/// Markdown block's part is its own text.
pub open spec fn rendered(bs: Seq<Block>, text: Seq<char>) -> bool {
    exists|parts: Seq<Seq<char>>|
        parts.len() == bs.len() && text == join(parts) && forall|k: int|
            0 <= k < bs.len() && (#[trigger] bs[k]) is Markdown ==> parts[k] == bs[k]->Markdown_0@
}

/// The Markdown text of a block sequence.
pub fn render(blocks: &Vec<Block>) -> (r: String)
    ensures
        rendered(blocks@, r@),
{
    let mut out = String::new();
    let ghost mut parts: Seq<Seq<char>> = Seq::empty();
    let mut k: usize = 0;
    while k < blocks.len()
        invariant
            0 <= k <= blocks@.len(),
            parts.len() == k,
            out@ == join(parts),
            forall|j: int| 0 <= j < k && (#[trigger] blocks@[j]) is Markdown ==> parts[j] == blocks@[j]->Markdown_0@,
        decreases blocks@.len() - k,
    {
        let part = render_block(&blocks[k]);
        if k > 0 {
            out.append("\n\n");
        }
        out.append(part.as_str());
        proof {
            reveal_strlit("\n\n");
            let next = parts.push(part@);
            assert(next.drop_last() =~= parts);
            assert(out@ =~= join(next));
            parts = next;
        }
        k = k + 1;
    }
    out
}

/// The Markdown page of a definition; it fails exactly where a version's
/// properties cannot be flattened.
pub fn to_markdown(c: &Crd) -> (r: Result<String, SchemaError>)
    ensures
        r is Ok <==> crd_supported(*c),
        r is Ok ==> exists|bs: Seq<Block>| crd_ok(bs, *c) && rendered(bs, r->Ok_0@),
{
    match crd(c) {
        Ok(blocks) => Ok(render(&blocks)),
        Err(e) => Err(e),
    }
}

/// The file that holds a definition's page in split mode: the lower-cased
/// kind followed by `.md`.
pub fn file_name(kind: &str) -> (r: String)
    ensures
        r@ == lower_of(kind@) + ".md"@,
{
    let mut name = lowercase(kind);
    name.append(".md");
    name
}

/// Pages written one after the other, each ending in a line break, with a
/// horizontal rule between two pages.
pub open spec fn pages_text(pages: Seq<Seq<char>>) -> Seq<char>
    decreases pages.len(),
{
    if pages.len() == 0 {
        Seq::empty()
    } else if pages.len() == 1 {
        pages[0] + seq!['\n']
    } else {
        pages_text(pages.drop_last()) + "\n---\n\n"@ + pages.last() + seq!['\n']
    }
}

/// The text of several pages in one output.
pub fn concat_pages(pages: &Vec<String>) -> (r: String)
    ensures
        r@ == pages_text(pages@.map_values(|p: String| p@)),
{
    let ghost views = pages@.map_values(|p: String| p@);
    let mut out = String::new();
    let mut k: usize = 0;
    proof {
        assert(views.subrange(0, 0) =~= Seq::<Seq<char>>::empty());
    }
    while k < pages.len()
        invariant
            0 <= k <= pages@.len(),
            views == pages@.map_values(|p: String| p@),
            out@ == pages_text(views.subrange(0, k as int)),
        decreases pages@.len() - k,
    {
        let ghost before = out@;
        if k > 0 {
            out.append("\n---\n\n");
        }
        out.append(pages[k].as_str());
        push_char(&mut out, '\n');
        proof {
            let ps = views.subrange(0, k as int + 1);
            assert(ps.drop_last() =~= views.subrange(0, k as int));
            assert(ps.last() == pages@[k as int]@);
            assert(out@ =~= pages_text(ps));
        }
        k = k + 1;
    }
    proof {
        assert(views.subrange(0, pages@.len() as int) =~= views);
    }
    out
}

/// What can be written out as a Markdown page.
pub trait ToMarkdown {
    fn to_markdown(&self) -> Result<String, SchemaError>;
}

impl ToMarkdown for Crd {
    fn to_markdown(&self) -> Result<String, SchemaError> {
        to_markdown(self)
    }
}

} // verus!
