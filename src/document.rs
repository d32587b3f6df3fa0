//! The document assembler: the abstract blocks of a definition's reference
//! page, one summary table and one detail section per property.
use vstd::prelude::*;
use crate::anchor::{anchor_spec, to_anchor};
use crate::path::{
    all_wf, direct_children, lemma_root_entries, models, render, root_flat, PathModel,
    PropertyInfo,
};
use crate::schema::{type_of, Crd, SchemaError, SchemaNode, Validation, Version};

verus! {

/// The alignment of a table column.
#[derive(PartialEq, Eq, Structural, Debug, Clone, Copy)]
pub enum Align {
    Left,
    Center,
}

/// The level of a heading.
#[derive(PartialEq, Eq, Structural, Debug, Clone, Copy)]
pub enum Level {
    H1,
    H2,
    H3,
}

/// A table cell: plain text, or a link to an anchor.
pub enum Cell {
    Text(String),
    Link { text: String, target: String },
}

/// A block of the abstract document.
pub enum Block {
    Heading { level: Level, text: String },
    /// Plain text, escaped when rendered.
    Paragraph(String),
    /// Text that is already Markdown, spliced in as it is.
    Markdown(String),
    Rule,
    Table { alignments: Vec<Align>, headers: Vec<String>, rows: Vec<Vec<Cell>> },
}

/// The text of the `Required` cell.
pub open spec fn required_mark(b: bool) -> Seq<char> {
    if b {
        "✅"@
    } else {
        Seq::empty()
    }
}

/// A description, or the placeholder for a missing one.
pub open spec fn desc_text(n: SchemaNode) -> Seq<char> {
    match n.description {
        Some(d) => d@,
        None => "*missing*"@,
    }
}

/// The text of a validation's message cell.
pub open spec fn message_text(v: Validation) -> Seq<char> {
    match v.message {
        Some(m) => m@,
        None => Seq::empty(),
    }
}

pub open spec fn views(v: Seq<String>) -> Seq<Seq<char>> {
    v.map_values(|s: String| s@)
}

pub open spec fn text_is(c: Cell, t: Seq<char>) -> bool {
    match c {
        Cell::Text(s) => s@ == t,
        _ => false,
    }
}

pub open spec fn link_is(c: Cell, text: Seq<char>, target: Seq<char>) -> bool {
    match c {
        Cell::Link { text: a, target: b } => a@ == text && b@ == target,
        _ => false,
    }
}

pub open spec fn heading_is(b: Block, level: Level, text: Seq<char>) -> bool {
    match b {
        Block::Heading { level: l, text: t } => l == level && t@ == text,
        _ => false,
    }
}

pub open spec fn paragraph_is(b: Block, text: Seq<char>) -> bool {
    match b {
        Block::Paragraph(t) => t@ == text,
        _ => false,
    }
}

pub open spec fn markdown_is(b: Block, text: Seq<char>) -> bool {
    match b {
        Block::Markdown(t) => t@ == text,
        _ => false,
    }
}

/// A summary row: a link named by the full name (or, `local`, the local
/// name) to the full name's anchor, the type, and the required mark.
pub open spec fn row_ok(row: Seq<Cell>, m: PathModel, local: bool) -> bool {
    &&& row.len() == 3
    &&& link_is(row[0], if local { m.segs.last().name } else { render(m.segs) }, anchor_spec(render(m.segs)))
    &&& text_is(row[1], type_of(m.leaf))
    &&& text_is(row[2], required_mark(m.required))
}

/// A summary table with one row per path of `ms`, in order.
pub open spec fn table_ok(b: Block, ms: Seq<PathModel>, local: bool) -> bool {
    match b {
        Block::Table { alignments, headers, rows } => {
            &&& alignments@ == seq![Align::Left, Align::Left, Align::Center]
            &&& views(headers@) == seq!["Property"@, "Type"@, "Required"@]
            &&& rows@.len() == ms.len()
            &&& forall|k: int| 0 <= k < ms.len() ==> row_ok((#[trigger] rows@[k])@, ms[k], local)
        },
        _ => false,
    }
}

/// A table of validation rules and their messages, in order.
pub open spec fn validations_ok(b: Block, vals: Seq<Validation>) -> bool {
    match b {
        Block::Table { alignments, headers, rows } => {
            &&& alignments@ == seq![Align::Left, Align::Left]
            &&& views(headers@) == seq!["Rule"@, "Error Message"@]
            &&& rows@.len() == vals.len()
            &&& forall|k: int| 0 <= k < vals.len() ==> {
                let row = (#[trigger] rows@[k])@;
                row.len() == 2 && text_is(row[0], vals[k].rule@) && text_is(row[1], message_text(vals[k]))
            }
        },
        _ => false,
    }
}

pub open spec fn has_table(m: PathModel) -> int {
    if m.leaf.properties is Some {
        1
    } else {
        0
    }
}

pub open spec fn has_validations(m: PathModel) -> int {
    if m.leaf.validations is Some {
        1
    } else {
        0
    }
}

/// The number of blocks of a detail section.
pub open spec fn detail_len(m: PathModel) -> int {
    4 + has_table(m) + has_validations(m)
}

/// A detail section: rule, heading, type, the children's table where the
/// schema has properties, the validations where it has some, description.
pub open spec fn detail_ok(bs: Seq<Block>, m: PathModel) -> bool {
    let t = has_table(m);
    let v = has_validations(m);
    &&& bs.len() == detail_len(m)
    &&& bs[0] is Rule
    &&& heading_is(bs[1], Level::H3, render(m.segs))
    &&& paragraph_is(bs[2], "Type: "@ + type_of(m.leaf))
    &&& t == 1 ==> table_ok(bs[3], direct_children(m)->0, true)
    &&& v == 1 ==> validations_ok(bs[3 + t], m.leaf.validations->0@)
    &&& markdown_is(bs[3 + t + v], desc_text(m.leaf))
}

pub open spec fn details_len(ms: Seq<PathModel>) -> int
    decreases ms.len(),
{
    if ms.len() == 0 {
        0
    } else {
        details_len(ms.drop_last()) + detail_len(ms.last())
    }
}

/// The detail sections of `ms`, one after the other.
pub open spec fn details_ok(bs: Seq<Block>, ms: Seq<PathModel>) -> bool
    decreases ms.len(),
{
    if ms.len() == 0 {
        bs.len() == 0
    } else {
        let k = detail_len(ms.last());
        &&& bs.len() == details_len(ms)
        &&& details_ok(bs.subrange(0, bs.len() - k), ms.drop_last())
        &&& detail_ok(bs.subrange(bs.len() - k, bs.len() as int), ms.last())
    }
}

pub open spec fn version_len(v: Version) -> int {
    3 + details_len(root_flat(v.schema)->0)
}

/// A version: its heading, its description, the summary of all its
/// properties, then their detail sections in the same order.
pub open spec fn version_ok(bs: Seq<Block>, v: Version) -> bool {
    let f = root_flat(v.schema)->0;
    &&& bs.len() == version_len(v)
    &&& heading_is(bs[0], Level::H2, v.name@)
    &&& markdown_is(bs[1], desc_text(v.schema))
    &&& table_ok(bs[2], f, false)
    &&& details_ok(bs.subrange(3, bs.len() as int), f)
}

pub open spec fn versions_len(vs: Seq<Version>) -> int
    decreases vs.len(),
{
    if vs.len() == 0 {
        0
    } else {
        versions_len(vs.drop_last()) + version_len(vs.last())
    }
}

/// The versions' blocks, one after the other.
pub open spec fn versions_ok(bs: Seq<Block>, vs: Seq<Version>) -> bool
    decreases vs.len(),
{
    if vs.len() == 0 {
        bs.len() == 0
    } else {
        let k = version_len(vs.last());
        &&& bs.len() == versions_len(vs)
        &&& versions_ok(bs.subrange(0, bs.len() - k), vs.drop_last())
        &&& version_ok(bs.subrange(bs.len() - k, bs.len() as int), vs.last())
    }
}

/// Every version's properties can be flattened.
pub open spec fn crd_supported(c: Crd) -> bool {
    forall|i: int| 0 <= i < c.versions@.len() ==> (#[trigger] root_flat(c.versions@[i].schema)) is Some
}

/// A definition's page: the kind as title, then each version in order.
pub open spec fn crd_ok(bs: Seq<Block>, c: Crd) -> bool {
    &&& bs.len() >= 1
    &&& heading_is(bs[0], Level::H1, c.kind@)
    &&& versions_ok(bs.subrange(1, bs.len() as int), c.versions@)
}

fn text(s: &str) -> (r: String)
    ensures
        r@ == s@,
{
    String::from_str(s)
}

fn mark(required: bool) -> (r: String)
    ensures
        r@ == required_mark(required),
{
    if required {
        text("✅")
    } else {
        String::new()
    }
}

fn description(n: &SchemaNode) -> (r: String)
    ensures
        r@ == desc_text(*n),
{
    match &n.description {
        Some(d) => d.clone(),
        None => text("*missing*"),
    }
}

/// One summary row for `prop`; the link text is its local name where
/// `local`, else its full name.
pub fn property_table_row(prop: &PropertyInfo, local: bool) -> (r: Vec<Cell>)
    requires
        prop.wf(),
    ensures
        row_ok(r@, prop@, local),
{
    let full_name = prop.full_name();
    let shown = if local {
        text(prop.name())
    } else {
        full_name.clone()
    };
    let target = to_anchor(full_name.as_str());
    let mut row: Vec<Cell> = Vec::new();
    row.push(Cell::Link { text: shown, target });
    row.push(Cell::Text(text(prop.type_())));
    row.push(Cell::Text(mark(prop.is_required())));
    row
}

fn headers3(a: &str, b: &str, c: &str) -> (r: Vec<String>)
    ensures
        views(r@) == seq![a@, b@, c@],
{
    let mut v: Vec<String> = Vec::new();
    v.push(text(a));
    v.push(text(b));
    v.push(text(c));
    proof {
        assert(views(v@) =~= seq![a@, b@, c@]);
    }
    v
}

/// The summary table of `props`, one row each, in order.
pub fn property_table(props: &Vec<PropertyInfo>, local: bool) -> (r: Block)
    requires
        all_wf(props@),
    ensures
        table_ok(r, models(props@), local),
{
    let mut alignments: Vec<Align> = Vec::new();
    alignments.push(Align::Left);
    alignments.push(Align::Left);
    alignments.push(Align::Center);
    let mut rows: Vec<Vec<Cell>> = Vec::new();
    let mut k: usize = 0;
    while k < props.len()
        invariant
            0 <= k <= props@.len(),
            all_wf(props@),
            rows@.len() == k,
            forall|j: int| 0 <= j < k ==> row_ok((#[trigger] rows@[j])@, props@[j]@, local),
        decreases props@.len() - k,
    {
        assert(props@[k as int].wf());
        let row = property_table_row(&props[k], local);
        rows.push(row);
        k = k + 1;
    }
    proof {
        assert(alignments@ =~= seq![Align::Left, Align::Left, Align::Center]);
        assert forall|j: int| 0 <= j < models(props@).len() implies row_ok((#[trigger] rows@[j])@, models(props@)[j], local) by {
            assert(models(props@)[j] == props@[j]@);
        }
    }
    proof {
        reveal_strlit("Property");
    }
    Block::Table { alignments, headers: headers3("Property", "Type", "Required"), rows }
}

fn validation_table(vals: &Vec<Validation>) -> (r: Block)
    ensures
        validations_ok(r, vals@),
{
    let mut alignments: Vec<Align> = Vec::new();
    alignments.push(Align::Left);
    alignments.push(Align::Left);
    let mut headers: Vec<String> = Vec::new();
    headers.push(text("Rule"));
    headers.push(text("Error Message"));
    let mut rows: Vec<Vec<Cell>> = Vec::new();
    let mut k: usize = 0;
    while k < vals.len()
        invariant
            0 <= k <= vals@.len(),
            rows@.len() == k,
            forall|j: int| 0 <= j < k ==> {
                let row = (#[trigger] rows@[j])@;
                row.len() == 2 && text_is(row[0], vals@[j].rule@) && text_is(row[1], message_text(vals@[j]))
            },
        decreases vals@.len() - k,
    {
        let v = &vals[k];
        let message = match &v.message {
            Some(m) => m.clone(),
            None => String::new(),
        };
        let mut row: Vec<Cell> = Vec::new();
        row.push(Cell::Text(v.rule.clone()));
        row.push(Cell::Text(message));
        rows.push(row);
        k = k + 1;
    }
    proof {
        assert(alignments@ =~= seq![Align::Left, Align::Left]);
        assert(views(headers@) =~= seq!["Rule"@, "Error Message"@]);
    }
    Block::Table { alignments, headers, rows }
}

/// The detail section of `prop`; it fails exactly where its direct
/// children cannot be resolved.
pub fn property_detail(prop: &PropertyInfo) -> (r: Result<Vec<Block>, SchemaError>)
    requires
        prop.wf(),
    ensures
        r is Ok <==> direct_children(prop@) is Some,
        r is Ok ==> detail_ok(r->Ok_0@, prop@),
{
    let schema = prop.schema();
    let mut blocks: Vec<Block> = Vec::new();
    blocks.push(Block::Rule);
    blocks.push(Block::Heading { level: Level::H3, text: prop.full_name() });
    let mut type_line = text("Type: ");
    type_line.append(prop.type_());
    blocks.push(Block::Paragraph(type_line));
    if schema.properties.is_some() {
        let children = match prop.duplicate().property_iter() {
            Ok(cs) => cs,
            Err(e) => return Err(e),
        };
        blocks.push(property_table(&children, true));
    }
    let ghost t = has_table(prop@);
    assert(blocks@.len() == 3 + t);
    match &schema.validations {
        Some(vals) => {
            blocks.push(validation_table(vals));
        },
        None => {},
    }
    blocks.push(Block::Markdown(description(schema)));
    Ok(blocks)
}

fn append_blocks(out: &mut Vec<Block>, more: Vec<Block>)
    ensures
        final(out)@ == old(out)@ + more@,
{
    let mut more = more;
    out.append(&mut more);
}

/// The blocks of one version: heading, description, summary of every
/// property below its root, and a detail section per property; it fails
/// exactly where the properties cannot be flattened.
pub fn version(v: &Version) -> (r: Result<Vec<Block>, SchemaError>)
    ensures
        r is Ok <==> root_flat(v.schema) is Some,
        r is Ok ==> version_ok(r->Ok_0@, *v),
{
    let flat = match v.schema.property_flat_iter() {
        Ok(f) => f,
        Err(e) => return Err(e),
    };
    let ghost f = root_flat(v.schema)->0;
    proof {
        lemma_root_entries(v.schema);
    }
    let mut blocks: Vec<Block> = Vec::new();
    blocks.push(Block::Heading { level: Level::H2, text: v.name.clone() });
    blocks.push(Block::Markdown(description(&v.schema)));
    blocks.push(property_table(&flat, false));
    let mut details: Vec<Block> = Vec::new();
    let mut k: usize = 0;
    proof {
        assert(f.subrange(0, 0) =~= Seq::<PathModel>::empty());
    }
    while k < flat.len()
        invariant
            0 <= k <= flat@.len(),
            all_wf(flat@),
            models(flat@) == f,
            forall|j: int| 0 <= j < f.len() ==> (#[trigger] direct_children(f[j])) is Some,
            details_ok(details@, f.subrange(0, k as int)),
        decreases flat@.len() - k,
    {
        assert(flat@[k as int].wf());
        assert(f[k as int] == flat@[k as int]@);
        assert(direct_children(f[k as int]) is Some);
        let d = match property_detail(&flat[k]) {
            Ok(d) => d,
            Err(e) => return Err(e),
        };
        let ghost before = details@;
        append_blocks(&mut details, d);
        proof {
            lemma_details_len(before, f.subrange(0, k as int));
            let ms = f.subrange(0, k as int + 1);
            assert(ms.drop_last() =~= f.subrange(0, k as int));
            assert(ms.last() == f[k as int]);
            let n = details@.len();
            assert(details@.subrange(0, n - d@.len()) =~= before);
            assert(details@.subrange(n - d@.len(), n as int) =~= d@);
        }
        k = k + 1;
    }
    let ghost head = blocks@;
    append_blocks(&mut blocks, details);
    proof {
        assert(f.subrange(0, f.len() as int) =~= f);
        assert(blocks@.subrange(3, blocks@.len() as int) =~= details@);
        lemma_details_len(details@, f);
    }
    Ok(blocks)
}

proof fn lemma_details_len(bs: Seq<Block>, ms: Seq<PathModel>)
    requires
        details_ok(bs, ms),
    ensures
        bs.len() == details_len(ms),
{
}

proof fn lemma_versions_len(bs: Seq<Block>, vs: Seq<Version>)
    requires
        versions_ok(bs, vs),
    ensures
        bs.len() == versions_len(vs),
{
}

/// The blocks of a definition: its kind as title, then each version's blocks
/// in declared order; it fails exactly where a version's properties cannot
/// be flattened.
pub fn crd(c: &Crd) -> (r: Result<Vec<Block>, SchemaError>)
    ensures
        r is Ok <==> crd_supported(*c),
        r is Ok ==> crd_ok(r->Ok_0@, *c),
{
    let mut blocks: Vec<Block> = Vec::new();
    blocks.push(Block::Heading { level: Level::H1, text: c.kind.clone() });
    let mut rest: Vec<Block> = Vec::new();
    let ghost vs = c.versions@;
    let mut k: usize = 0;
    proof {
        assert(vs.subrange(0, 0) =~= Seq::<Version>::empty());
    }
    while k < c.versions.len()
        invariant
            0 <= k <= vs.len(),
            vs == c.versions@,
            forall|j: int| 0 <= j < k ==> (#[trigger] root_flat(vs[j].schema)) is Some,
            versions_ok(rest@, vs.subrange(0, k as int)),
        decreases vs.len() - k,
    {
        let b = match version(&c.versions[k]) {
            Ok(b) => b,
            Err(e) => return Err(e),
        };
        let ghost before = rest@;
        append_blocks(&mut rest, b);
        proof {
            lemma_versions_len(before, vs.subrange(0, k as int));
            let ws = vs.subrange(0, k as int + 1);
            assert(ws.drop_last() =~= vs.subrange(0, k as int));
            assert(ws.last() == vs[k as int]);
            let n = rest@.len();
            assert(rest@.subrange(0, n - b@.len()) =~= before);
            assert(rest@.subrange(n - b@.len(), n as int) =~= b@);
        }
        k = k + 1;
    }
    append_blocks(&mut blocks, rest);
    proof {
        assert(vs.subrange(0, vs.len() as int) =~= vs);
        assert(blocks@.subrange(1, blocks@.len() as int) =~= rest@);
    }
    Ok(blocks)
}

} // verus!
