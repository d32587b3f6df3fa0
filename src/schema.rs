//! The schema model: a custom resource definition, its versions, and the
//! JSON-Schema-like node tree of each version.
use vstd::prelude::*;

verus! {

/// A custom validation expression attached to a schema node.
pub struct Validation {
    pub rule: String,
    pub message: Option<String>,
}

/// What an array node declares for its items.
pub enum Items {
    /// One schema shared by every item.
    Single(Box<SchemaNode>),
    /// One schema per position (tuple style); never traversed.
    Multiple(Vec<SchemaNode>),
}

/// One entry of a node's ordered property mapping.
pub struct Property {
    pub name: String,
    pub schema: SchemaNode,
}

/// A node of the schema tree. Absent optional fields are `None`.
pub struct SchemaNode {
    pub type_: Option<String>,
    pub properties: Option<Vec<Property>>,
    pub items: Option<Items>,
    pub required: Option<Vec<String>>,
    pub description: Option<String>,
    pub validations: Option<Vec<Validation>>,
}

/// One API version and its root schema.
pub struct Version {
    pub name: String,
    pub schema: SchemaNode,
}

/// A custom resource definition: a kind and its versions, in declared order.
pub struct Crd {
    pub kind: String,
    pub versions: Vec<Version>,
}

/// The failure of the resolver: tuple-style array items cannot be traversed.
#[derive(PartialEq, Eq, Structural, Debug, Clone, Copy)]
pub enum SchemaError {
    UnsupportedSchemaShape,
}

/// The number of declared properties of a node (zero when it has none).
pub open spec fn props_len(n: SchemaNode) -> int {
    match n.properties {
        Some(v) => v@.len() as int,
        None => 0,
    }
}

/// Whether `name` is listed in the node's `required` set.
pub open spec fn in_required(n: SchemaNode, name: Seq<char>) -> bool {
    match n.required {
        Some(v) => exists|j: int| 0 <= j < v@.len() && (#[trigger] v@[j])@ == name,
        None => false,
    }
}

/// The declared type, or `object` for an untyped node.
pub open spec fn type_of(n: SchemaNode) -> Seq<char> {
    match n.type_ {
        Some(t) => t@,
        None => "object"@,
    }
}

impl SchemaNode {
    /// The declared type string, or `"object"` when none is declared.
    pub fn type_(&self) -> (r: &str)
        ensures
            r@ == type_of(*self),
    {
        match &self.type_ {
            Some(t) => t.as_str(),
            None => "object",
        }
    }

    /// Whether `name` is one of the node's required property names.
    pub fn requires_name(&self, name: &String) -> (r: bool)
        ensures
            r == in_required(*self, name@),
    {
        match &self.required {
            None => false,
            Some(v) => {
                let mut i: usize = 0;
                while i < v.len()
                    invariant
                        0 <= i <= v@.len(),
                        self.required == Some(*v),
                        forall|j: int| 0 <= j < i ==> (#[trigger] v@[j])@ != name@,
                    decreases v@.len() - i,
                {
                    if v[i] == *name {
                        assert(v@[i as int]@ == name@);
                        assert(self.required->0@[i as int]@ == name@);
                        assert(in_required(*self, name@));
                        return true;
                    }
                    i = i + 1;
                }
                false
            },
        }
    }
}

/// Something that declares API versions.
pub trait HasVersions {
    /// The declared versions, in order.
    spec fn versions_model(&self) -> Seq<Version>;

    fn version_iter(&self) -> (r: &[Version])
        ensures
            r@ == self.versions_model(),
    ;
}

impl HasVersions for Crd {
    open spec fn versions_model(&self) -> Seq<Version> {
        self.versions@
    }

    fn version_iter(&self) -> (r: &[Version]) {
        self.versions.as_slice()
    }
}

} // verus!
