use crd2md::anchor::{anchor_of_lowered, to_anchor};
use crd2md::document::{crd, property_detail, version, Align, Block, Cell, Level};
use crd2md::render::{concat_pages, file_name, render, render_block, to_markdown, ToMarkdown};
use crd2md::path::HasProperties;
use crd2md::schema::{Crd, HasVersions, Items, Property, SchemaError, SchemaNode, Validation, Version};

fn node(type_: Option<&str>) -> SchemaNode {
    SchemaNode {
        type_: type_.map(|t| t.to_string()),
        properties: None,
        items: None,
        required: None,
        description: None,
        validations: None,
    }
}

fn object(props: Vec<(&str, SchemaNode)>, required: &[&str]) -> SchemaNode {
    let mut n = node(Some("object"));
    n.properties = Some(
        props
            .into_iter()
            .map(|(name, schema)| Property { name: name.to_string(), schema })
            .collect(),
    );
    if !required.is_empty() {
        n.required = Some(required.iter().map(|r| r.to_string()).collect());
    }
    n
}

fn array(items: SchemaNode) -> SchemaNode {
    let mut n = node(Some("array"));
    n.items = Some(Items::Single(Box::new(items)));
    n
}

fn widget_root() -> SchemaNode {
    object(
        vec![("replicas", node(Some("integer"))), ("tags", array(node(Some("string"))))],
        &["replicas"],
    )
}

fn widget() -> Crd {
    Crd {
        kind: "Widget".to_string(),
        versions: vec![Version { name: "v1".to_string(), schema: widget_root() }],
    }
}

fn full_names(root: &SchemaNode) -> Vec<String> {
    root.property_flat_iter().unwrap().iter().map(|p| p.full_name()).collect()
}

fn cell_text(c: &Cell) -> String {
    match c {
        Cell::Text(t) => t.clone(),
        Cell::Link { text, .. } => text.clone(),
    }
}

#[test]
fn widget_flattened_properties() {
    let root = widget_root();
    let flat = root.property_flat_iter().unwrap();
    assert_eq!(flat.len(), 2);
    assert_eq!(flat[0].full_name(), "replicas");
    assert_eq!(flat[0].type_(), "integer");
    assert!(flat[0].is_required());
    assert_eq!(flat[1].full_name(), "tags[]");
    assert_eq!(flat[1].name(), "tags");
    assert_eq!(flat[1].type_(), "string");
    assert!(!flat[1].is_required());
}

#[test]
fn widget_summary_and_details() {
    let blocks = version(&widget().versions[0]).unwrap();
    match &blocks[0] {
        Block::Heading { level, text } => {
            assert_eq!(*level, Level::H2);
            assert_eq!(text, "v1");
        }
        _ => panic!("expected a heading"),
    }
    match &blocks[1] {
        Block::Markdown(t) => assert_eq!(t, "*missing*"),
        _ => panic!("expected the description"),
    }
    match &blocks[2] {
        Block::Table { alignments, headers, rows } => {
            assert_eq!(alignments, &vec![Align::Left, Align::Left, Align::Center]);
            assert_eq!(headers, &vec!["Property".to_string(), "Type".to_string(), "Required".to_string()]);
            assert_eq!(rows.len(), 2);
            let texts: Vec<Vec<String>> = rows.iter().map(|r| r.iter().map(cell_text).collect()).collect();
            assert_eq!(texts[0], vec!["replicas", "integer", "✅"]);
            assert_eq!(texts[1], vec!["tags[]", "string", ""]);
            match &rows[1][0] {
                Cell::Link { target, .. } => assert_eq!(target, "#tags"),
                _ => panic!("expected a link"),
            }
        }
        _ => panic!("expected the summary table"),
    }
    // Each detail section: rule, heading, type line, description.
    assert_eq!(blocks.len(), 3 + 4 + 4);
    assert!(matches!(blocks[3], Block::Rule));
    assert!(matches!(&blocks[4], Block::Heading { text, .. } if text == "replicas"));
    assert!(matches!(&blocks[5], Block::Paragraph(t) if t == "Type: integer"));
    assert!(matches!(blocks[7], Block::Rule));
    assert!(matches!(&blocks[8], Block::Heading { text, .. } if text == "tags[]"));
    assert!(matches!(&blocks[9], Block::Paragraph(t) if t == "Type: string"));
}

#[test]
fn widget_page_and_file_name() {
    let c = widget();
    let blocks = crd(&c).unwrap();
    assert!(matches!(&blocks[0], Block::Heading { level: Level::H1, text } if text == "Widget"));
    assert_eq!(blocks.len(), 12);
    let page = to_markdown(&c).unwrap();
    assert!(page.starts_with("# Widget"));
    assert!(page.contains("[tags\\[\\]](#tags)") || page.contains("[tags[]](#tags)"));
    assert_eq!(c.to_markdown().unwrap(), page);
    assert_eq!(file_name(&c.kind), "widget.md");
}

#[test]
fn root_level_names_have_no_separator() {
    let root = object(vec![("spec", node(Some("string")))], &[]);
    assert_eq!(full_names(&root), vec!["spec"]);
}

#[test]
fn nested_names_are_dotted() {
    let root = object(vec![("a", object(vec![("b", node(None))], &[]))], &[]);
    assert_eq!(full_names(&root), vec!["a", "a.b"]);
}

#[test]
fn array_marker_binds_to_the_unwrapped_segment() {
    let root = object(vec![("a", array(object(vec![("b", node(Some("string")))], &[])))], &[]);
    assert_eq!(full_names(&root), vec!["a[]", "a[].b"]);
}

#[test]
fn arrays_of_arrays_keep_every_level() {
    let root = object(
        vec![("m", array(array(object(vec![("x", node(Some("number")))], &[]))))],
        &[],
    );
    let flat = root.property_flat_iter().unwrap();
    assert_eq!(flat.len(), 2);
    assert_eq!(flat[0].full_name(), "m[][]");
    assert_eq!(flat[0].type_(), "object");
    assert_eq!(flat[1].full_name(), "m[][].x");
    assert_eq!(flat[1].type_(), "number");
}

#[test]
fn flatten_is_pre_order_in_declared_order() {
    let root = object(
        vec![
            ("z", object(vec![("b", node(None)), ("a", node(None))], &[])),
            ("y", node(None)),
        ],
        &[],
    );
    assert_eq!(full_names(&root), vec!["z", "z.b", "z.a", "y"]);
    let flat = root.property_flat_iter().unwrap();
    let z: Vec<String> = flat[0].duplicate().property_flat_iter().unwrap().iter().map(|p| p.full_name()).collect();
    assert_eq!(z, vec!["z", "z.b", "z.a"]);
    let children: Vec<String> = flat[0].duplicate().property_iter().unwrap().iter().map(|p| p.name().to_string()).collect();
    assert_eq!(children, vec!["b", "a"]);
}

#[test]
fn required_comes_from_the_direct_parent_at_any_depth() {
    let inner = object(vec![("x", node(None)), ("y", node(None))], &["y"]);
    let root = object(vec![("outer", object(vec![("inner", inner)], &["inner"]))], &[]);
    let flat = root.property_flat_iter().unwrap();
    let req: Vec<(String, bool)> = flat.iter().map(|p| (p.full_name(), p.is_required())).collect();
    assert_eq!(
        req,
        vec![
            ("outer".to_string(), false),
            ("outer.inner".to_string(), true),
            ("outer.inner.x".to_string(), false),
            ("outer.inner.y".to_string(), true),
        ]
    );
}

#[test]
fn type_defaults_to_object() {
    assert_eq!(node(None).type_(), "object");
    assert_eq!(node(Some("boolean")).type_(), "boolean");
}

#[test]
fn anchors_are_lowercase_slugs() {
    assert_eq!(to_anchor("spec.tags[]"), "#spectags");
    assert_eq!(to_anchor("Foo Bar\tBaz"), "#foo-bar-baz");
    assert_eq!(to_anchor(""), "#");
    assert_eq!(to_anchor("a.b"), to_anchor("a.b"));
    assert_eq!(anchor_of_lowered("x_y 9"), "#xy-9");
    let a = to_anchor("Ünïcode Name-1");
    assert!(a.starts_with('#'));
    assert!(a[1..].chars().all(|c| c.is_ascii_lowercase() || c.is_ascii_digit() || c == '-'));
}

#[test]
fn tuple_items_are_unsupported() {
    let mut tuple = node(Some("array"));
    tuple.items = Some(Items::Multiple(vec![node(Some("string"))]));
    let root = object(vec![("pair", tuple)], &[]);
    assert_eq!(root.property_flat_iter().err(), Some(SchemaError::UnsupportedSchemaShape));
    assert_eq!(root.property_iter().err(), Some(SchemaError::UnsupportedSchemaShape));
    let c = Crd { kind: "Pair".to_string(), versions: vec![Version { name: "v1".to_string(), schema: root }] };
    assert!(crd(&c).is_err());
    assert!(to_markdown(&c).is_err());
}

#[test]
fn detail_has_children_and_validations() {
    let mut spec = object(vec![("size", node(Some("integer")))], &["size"]);
    spec.description = Some("The *spec*.".to_string());
    spec.validations = Some(vec![
        Validation { rule: "self.size > 0".to_string(), message: Some("positive".to_string()) },
        Validation { rule: "true".to_string(), message: None },
    ]);
    let root = object(vec![("spec", spec)], &[]);
    let flat = root.property_flat_iter().unwrap();
    let d = property_detail(&flat[0]).unwrap();
    assert_eq!(d.len(), 6);
    match &d[3] {
        Block::Table { rows, .. } => {
            assert_eq!(rows.len(), 1);
            assert_eq!(cell_text(&rows[0][0]), "size");
            assert!(matches!(&rows[0][0], Cell::Link { target, .. } if target == "#specsize"));
            assert_eq!(cell_text(&rows[0][2]), "✅");
        }
        _ => panic!("expected the children's table"),
    }
    match &d[4] {
        Block::Table { alignments, headers, rows } => {
            assert_eq!(alignments, &vec![Align::Left, Align::Left]);
            assert_eq!(headers, &vec!["Rule".to_string(), "Error Message".to_string()]);
            assert_eq!(rows.iter().map(|r| r.iter().map(cell_text).collect::<Vec<_>>()).collect::<Vec<_>>(),
                vec![vec!["self.size > 0", "positive"], vec!["true", ""]]);
        }
        _ => panic!("expected the validations table"),
    }
    assert!(matches!(&d[5], Block::Markdown(t) if t == "The *spec*."));
}

#[test]
fn empty_validations_still_give_a_table() {
    let mut leaf = node(Some("string"));
    leaf.validations = Some(vec![]);
    let root = object(vec![("name", leaf)], &[]);
    let flat = root.property_flat_iter().unwrap();
    let d = property_detail(&flat[0]).unwrap();
    assert_eq!(d.len(), 5);
    assert!(matches!(&d[3], Block::Table { rows, .. } if rows.is_empty()));
}

#[test]
fn rendering_passes_markdown_through_and_joins_blocks() {
    let md = Block::Markdown("**bold**".to_string());
    assert_eq!(render_block(&md), "**bold**");
    let heading = Block::Heading { level: Level::H3, text: "spec".to_string() };
    let h = render_block(&heading);
    assert_ne!(h, "spec");
    assert!(h.starts_with("### spec"));
    let text = render(&vec![heading, md]);
    assert_eq!(text, format!("{}\n\n**bold**", h));
}

#[test]
fn empty_root_has_no_properties() {
    let root = node(Some("object"));
    assert!(root.property_flat_iter().unwrap().is_empty());
    let c = Crd { kind: "Empty".to_string(), versions: vec![] };
    assert_eq!(crd(&c).unwrap().len(), 1);
}

#[test]
fn traits_list_versions_and_properties() {
    let c = widget();
    let names: Vec<&str> = c.version_iter().iter().map(|v| v.name.as_str()).collect();
    assert_eq!(names, vec!["v1"]);
    let root = widget_root();
    let flat = HasProperties::property_flat_iter(&root).unwrap();
    assert_eq!(flat.iter().map(|p| p.full_name()).collect::<Vec<_>>(), vec!["replicas", "tags[]"]);
    let direct = HasProperties::property_iter(&root).unwrap();
    assert_eq!(direct.len(), 2);
    let tags = flat[1].duplicate();
    assert!(HasProperties::property_iter(tags).unwrap().is_empty());
    let again = HasProperties::property_flat_iter(flat[0].duplicate()).unwrap();
    assert_eq!(again.len(), 1);
    assert_eq!(again[0].schema().type_(), "integer");
}

#[test]
fn pages_are_separated_by_a_rule() {
    assert_eq!(concat_pages(&vec![]), "");
    assert_eq!(concat_pages(&vec!["a".to_string()]), "a\n");
    assert_eq!(concat_pages(&vec!["a".to_string(), "b".to_string()]), "a\n\n---\n\nb\n");
}

#[test]
fn children_of_a_nested_array_path_keep_both_levels() {
    let root = object(vec![("a", array(array(object(vec![("b", node(None))], &[]))))], &[]);
    let direct = root.property_iter().unwrap();
    assert_eq!(direct.len(), 1);
    assert_eq!(direct[0].full_name(), "a[][]");
    let children = direct[0].duplicate().property_iter().unwrap();
    assert_eq!(children.len(), 1);
    assert_eq!(children[0].name(), "b");
    assert_eq!(children[0].full_name(), "a[][].b");
}
