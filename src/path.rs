//! Property paths: naming, array unwrapping, direct children and the
//! pre-order flattening of a schema tree.
use vstd::prelude::*;
use crate::schema::{in_required, props_len, type_of, Items, SchemaError, SchemaNode};

verus! {

/// One step of a path: a property name and how many array levels were
/// unwrapped beneath it.
pub struct Seg {
    pub name: Seq<char>,
    pub depth: nat,
}

/// What a property path denotes: its segments, whether its parent requires
/// it, and the effective schema reached after unwrapping arrays.
pub struct PathModel {
    pub segs: Seq<Seg>,
    pub required: bool,
    pub leaf: SchemaNode,
}

/// `[]` repeated `d` times.
pub open spec fn brackets(d: nat) -> Seq<char>
    decreases d,
{
    if d == 0 {
        Seq::empty()
    } else {
        brackets((d - 1) as nat) + seq!['[', ']']
    }
}

/// The text of one segment: its name followed by one `[]` per array level.
pub open spec fn label(s: Seg) -> Seq<char> {
    s.name + brackets(s.depth)
}

/// The full name of a path: segment labels joined by `.`.
pub open spec fn render(segs: Seq<Seg>) -> Seq<char>
    decreases segs.len(),
{
    if segs.len() == 0 {
        Seq::empty()
    } else if segs.len() == 1 {
        label(segs[0])
    } else {
        render(segs.drop_last()) + seq!['.'] + label(segs.last())
    }
}

/// Follows the chain of single-schema `items` of a node without properties,
/// counting the levels from `d`; `None` where tuple-style items are met.
pub open spec fn unwrap_spec(s: SchemaNode, d: nat) -> Option<(SchemaNode, nat)>
    decreases s,
{
    if s.properties is None && s.items is Some {
        match s.items {
            Some(Items::Single(b)) => unwrap_spec(*b, d + 1),
            _ => None,
        }
    } else {
        Some((s, d))
    }
}

/// The path of a property named `name` declared with schema `s`, below the
/// segments `prefix`.
pub open spec fn resolve_spec(prefix: Seq<Seg>, name: Seq<char>, required: bool, s: SchemaNode) -> Option<PathModel> {
    match unwrap_spec(s, 0) {
        Some((leaf, d)) => Some(PathModel { segs: prefix.push(Seg { name, depth: d }), required, leaf }),
        None => None,
    }
}

/// The paths of the first `n` properties of `parent`, below `segs`.
pub open spec fn children_spec(segs: Seq<Seg>, parent: SchemaNode, n: int) -> Option<Seq<PathModel>>
    decreases n,
{
    if n <= 0 || parent.properties is None {
        Some(Seq::empty())
    } else {
        let p = parent.properties->0@[n - 1];
        match (children_spec(segs, parent, n - 1), resolve_spec(segs, p.name@, in_required(parent, p.name@), p.schema)) {
            (Some(cs), Some(m)) => Some(cs.push(m)),
            _ => None,
        }
    }
}

/// The direct children of a path, in declared order.
pub open spec fn direct_children(p: PathModel) -> Option<Seq<PathModel>> {
    children_spec(p.segs, p.leaf, props_len(p.leaf))
}

/// The pre-order flattening of the property `name` declared with schema `s`,
/// `d` array levels already unwrapped.
pub open spec fn node_flat(prefix: Seq<Seg>, name: Seq<char>, d: nat, required: bool, s: SchemaNode) -> Option<Seq<PathModel>>
    decreases s, props_len(s) + 1,
{
    if s.properties is None && s.items is Some {
        match s.items {
            Some(Items::Single(b)) => node_flat(prefix, name, d + 1, required, *b),
            _ => None,
        }
    } else {
        let segs = prefix.push(Seg { name, depth: d });
        match children_flat(segs, s, props_len(s)) {
            Some(rest) => Some(seq![PathModel { segs, required, leaf: s }] + rest),
            None => None,
        }
    }
}

/// The pre-order flattenings of the first `n` properties of `parent`, one after the other.
pub open spec fn children_flat(segs: Seq<Seg>, parent: SchemaNode, n: int) -> Option<Seq<PathModel>>
    decreases parent, n,
{
    if n <= 0 || parent.properties is None || n > props_len(parent) {
        Some(Seq::empty())
    } else {
        let p = parent.properties->0@[n - 1];
        match (children_flat(segs, parent, n - 1), node_flat(segs, p.name@, 0, in_required(parent, p.name@), parent.properties->0@[n - 1].schema)) {
            (Some(a), Some(b)) => Some(a + b),
            _ => None,
        }
    }
}

/// The pre-order flattening of a path: the path itself, then its descendants.
pub open spec fn path_flat(p: PathModel) -> Option<Seq<PathModel>> {
    match children_flat(p.segs, p.leaf, props_len(p.leaf)) {
        Some(rest) => Some(seq![p] + rest),
        None => None,
    }
}

/// The flattenings of several paths, one after the other.
pub open spec fn flat_all(cs: Seq<PathModel>) -> Option<Seq<PathModel>>
    decreases cs.len(),
{
    if cs.len() == 0 {
        Some(Seq::empty())
    } else {
        match (flat_all(cs.drop_last()), path_flat(cs.last())) {
            (Some(a), Some(b)) => Some(a + b),
            _ => None,
        }
    }
}

/// All properties below a version's root schema, the root itself excluded.
pub open spec fn root_flat(root: SchemaNode) -> Option<Seq<PathModel>> {
    children_flat(Seq::empty(), root, props_len(root))
}

/// Whether `m`'s effective schema lies strictly inside `parent`.
pub open spec fn below(parent: SchemaNode, m: PathModel) -> bool {
    decreases_to!(parent => m.leaf)
}

/// Unwrapping reaches a node inside `s` (or `s` itself) that no longer
/// needs unwrapping.
pub proof fn lemma_unwrap(s: SchemaNode, d: nat)
    ensures
        match unwrap_spec(s, d) {
            Some((leaf, d2)) => (leaf == s || decreases_to!(s => leaf)) && d2 >= d
                && (leaf.properties is Some || leaf.items is None),
            None => true,
        },
    decreases s,
{
    if s.properties is None && s.items is Some {
        match s.items {
            Some(Items::Single(b)) => {
                lemma_unwrap(*b, d + 1);
            },
            _ => {},
        }
    }
}

proof fn lemma_node_flat(prefix: Seq<Seg>, name: Seq<char>, d: nat, required: bool, s: SchemaNode)
    ensures
        node_flat(prefix, name, d, required, s) == match unwrap_spec(s, d) {
            None => None,
            Some((leaf, d2)) => path_flat(PathModel { segs: prefix.push(Seg { name, depth: d2 }), required, leaf }),
        },
    decreases s,
{
    if s.properties is None && s.items is Some {
        match s.items {
            Some(Items::Single(b)) => {
                lemma_node_flat(prefix, name, d + 1, required, *b);
            },
            _ => {},
        }
    }
}

proof fn lemma_children_flat(segs: Seq<Seg>, parent: SchemaNode, n: int)
    requires
        0 <= n <= props_len(parent),
    ensures
        children_flat(segs, parent, n) == match children_spec(segs, parent, n) {
            None => None,
            Some(cs) => flat_all(cs),
        },
    decreases n,
{
    if n > 0 && parent.properties is Some {
        let p = parent.properties->0@[n - 1];
        lemma_children_flat(segs, parent, n - 1);
        lemma_node_flat(segs, p.name@, 0, in_required(parent, p.name@), p.schema);
        match (children_spec(segs, parent, n - 1), resolve_spec(segs, p.name@, in_required(parent, p.name@), p.schema)) {
            (Some(cs), Some(m)) => {
                assert(cs.push(m).drop_last() =~= cs);
            },
            _ => {},
        }
    }
}

/// Each direct child of `parent` is the declared property at the same
/// position, resolved below `segs`, and lies inside `parent`.
pub proof fn lemma_children_spec(segs: Seq<Seg>, parent: SchemaNode, n: int)
    requires
        0 <= n <= props_len(parent),
    ensures
        children_spec(segs, parent, n) is Some ==> {
            let cs = children_spec(segs, parent, n)->0;
            &&& cs.len() == n
            &&& forall|k: int| 0 <= k < n ==> {
                let p = parent.properties->0@[k];
                Some(#[trigger] cs[k]) == resolve_spec(segs, p.name@, in_required(parent, p.name@), p.schema)
                    && below(parent, cs[k])
            }
        },
    decreases n,
{
    if n > 0 && parent.properties is Some {
        let p = parent.properties->0@[n - 1];
        lemma_children_spec(segs, parent, n - 1);
        lemma_unwrap(p.schema, 0);
        assert(decreases_to!(parent => parent.properties->0@[n - 1].schema));
    }
}

/// Children stop at the first property whose items cannot be unwrapped.
proof fn lemma_children_spec_none(segs: Seq<Seg>, parent: SchemaNode, k: int, n: int)
    requires
        0 <= k <= n,
        children_spec(segs, parent, k) is None,
    ensures
        children_spec(segs, parent, n) is None,
    decreases n - k,
{
    if k < n {
        lemma_children_spec_none(segs, parent, k, n - 1);
    }
}

/// A flattening that fails on a prefix of the paths fails on all of them.
proof fn lemma_flat_all_none(cs: Seq<PathModel>, k: int)
    requires
        0 <= k <= cs.len(),
        flat_all(cs.subrange(0, k)) is None,
    ensures
        flat_all(cs) is None,
    decreases cs.len() - k,
{
    if k < cs.len() {
        assert(cs.subrange(0, k + 1).drop_last() =~= cs.subrange(0, k));
        lemma_flat_all_none(cs, k + 1);
    } else {
        assert(cs.subrange(0, k) =~= cs);
    }
}

/// Pre-order: the flattening of a path is the path itself, followed by the
/// flattenings of its direct children in declared order; it fails exactly
/// when resolving the children or flattening one of them fails.
pub proof fn lemma_flatten_preorder(p: PathModel)
    ensures
        path_flat(p) == match direct_children(p) {
            None => None,
            Some(cs) => match flat_all(cs) {
                None => None,
                Some(rest) => Some(seq![p] + rest),
            },
        },
        path_flat(p) is Some ==> path_flat(p)->0[0] == p,
{
    lemma_children_flat(p.segs, p.leaf, props_len(p.leaf));
}

/// The properties below a root are the flattenings of its direct children.
pub proof fn lemma_root_flat(root: SchemaNode)
    ensures
        root_flat(root) == match children_spec(Seq::empty(), root, props_len(root)) {
            None => None,
            Some(cs) => flat_all(cs),
        },
{
    lemma_children_flat(Seq::empty(), root, props_len(root));
}

/// A child's `required` flag is membership of its name in the parent's
/// effective `required` set, at any depth; its segments extend the parent's
/// by one segment carrying that name.
pub proof fn lemma_child_required(p: PathModel, k: int)
    requires
        direct_children(p) is Some,
        0 <= k < props_len(p.leaf),
    ensures
        ({
            let c = direct_children(p)->0[k];
            let name = p.leaf.properties->0@[k].name@;
            &&& c.required == in_required(p.leaf, name)
            &&& c.segs.len() == p.segs.len() + 1
            &&& c.segs.drop_last() == p.segs
            &&& c.segs.last().name == name
        }),
{
    lemma_children_spec(p.segs, p.leaf, props_len(p.leaf));
    let c = direct_children(p)->0[k];
    assert(c.segs.drop_last() =~= p.segs);
}

/// A property directly under a root is named by its label alone: no
/// separator, and exactly its declared name where it is no array.
pub proof fn lemma_root_full_name(root: SchemaNode, k: int)
    requires
        children_spec(Seq::empty(), root, props_len(root)) is Some,
        0 <= k < props_len(root),
    ensures
        ({
            let c = children_spec(Seq::empty(), root, props_len(root))->0[k];
            &&& c.segs.len() == 1
            &&& c.segs[0].name == root.properties->0@[k].name@
            &&& render(c.segs) == label(c.segs[0])
            &&& c.segs[0].depth == 0 ==> render(c.segs) == root.properties->0@[k].name@
        }),
{
    lemma_children_spec(Seq::empty(), root, props_len(root));
    let c = children_spec(Seq::empty(), root, props_len(root))->0[k];
    let p = root.properties->0@[k];
    assert(c.segs[0] == c.segs.last());
    assert(brackets(0) =~= Seq::<char>::empty());
    assert(p.name@ + Seq::<char>::empty() =~= p.name@);
}

/// A property `b` nested under `a` is named `a.b`; the array marker of an
/// unwrapped `a` stays on `a`: `a[].b`.
pub proof fn lemma_nested_full_name(a: Seg, b: Seg)
    ensures
        render(seq![a, b]) == label(a) + seq!['.'] + label(b),
        a.depth == 0 && b.depth == 0 ==> render(seq![a, b]) == a.name + seq!['.'] + b.name,
        a.depth == 1 && b.depth == 0 ==> render(seq![a, b]) == a.name + seq!['[', ']', '.'] + b.name,
{
    assert(seq![a, b].drop_last() =~= seq![a]);
    assert(seq![a][0] == a);
    assert(seq![a, b].last() == b);
    assert(render(seq![a]) == label(a));
    assert(brackets(0) =~= Seq::<char>::empty());
    assert(brackets(1) =~= seq!['[', ']']) by {
        assert(brackets(0) =~= Seq::<char>::empty());
    }
    if b.depth == 0 {
        assert(label(b) =~= b.name);
    }
    if a.depth == 0 {
        assert(label(a) =~= a.name);
    }
    if a.depth == 1 {
        assert(label(a) =~= a.name + seq!['[', ']']);
    }
    if a.depth == 0 && b.depth == 0 {
        assert(render(seq![a, b]) =~= a.name + seq!['.'] + b.name);
    }
    if a.depth == 1 && b.depth == 0 {
        assert(render(seq![a, b]) =~= a.name + seq!['[', ']', '.'] + b.name);
    }
}

proof fn lemma_node_flat_ok(prefix: Seq<Seg>, name: Seq<char>, d: nat, required: bool, s: SchemaNode)
    ensures
        node_flat(prefix, name, d, required, s) is Some ==> forall|k: int|
            0 <= k < node_flat(prefix, name, d, required, s)->0.len()
                ==> (#[trigger] direct_children(node_flat(prefix, name, d, required, s)->0[k])) is Some,
    decreases s, props_len(s) + 1,
{
    if s.properties is None && s.items is Some {
        match s.items {
            Some(Items::Single(b)) => {
                lemma_node_flat_ok(prefix, name, d + 1, required, *b);
            },
            _ => {},
        }
    } else {
        let segs = prefix.push(Seg { name, depth: d });
        let me = PathModel { segs, required, leaf: s };
        lemma_children_flat(segs, s, props_len(s));
        lemma_children_flat_ok(segs, s, props_len(s));
        if node_flat(prefix, name, d, required, s) is Some {
            let rest = children_flat(segs, s, props_len(s))->0;
            let all = node_flat(prefix, name, d, required, s)->0;
            assert(all == seq![me] + rest);
            assert forall|k: int| 0 <= k < all.len() implies (#[trigger] direct_children(all[k])) is Some by {
                if k > 0 {
                    assert(all[k] == rest[k - 1]);
                }
            }
        }
    }
}

proof fn lemma_children_flat_ok(segs: Seq<Seg>, parent: SchemaNode, n: int)
    ensures
        children_flat(segs, parent, n) is Some ==> forall|k: int|
            0 <= k < children_flat(segs, parent, n)->0.len()
                ==> (#[trigger] direct_children(children_flat(segs, parent, n)->0[k])) is Some,
    decreases parent, n,
{
    if !(n <= 0 || parent.properties is None || n > props_len(parent)) {
        let p = parent.properties->0@[n - 1];
        lemma_children_flat_ok(segs, parent, n - 1);
        lemma_node_flat_ok(segs, p.name@, 0, in_required(parent, p.name@), parent.properties->0@[n - 1].schema);
        if children_flat(segs, parent, n) is Some {
            let a = children_flat(segs, parent, n - 1)->0;
            let b = node_flat(segs, p.name@, 0, in_required(parent, p.name@), p.schema)->0;
            let all = children_flat(segs, parent, n)->0;
            assert(all == a + b);
            assert forall|k: int| 0 <= k < all.len() implies (#[trigger] direct_children(all[k])) is Some by {
                if k < a.len() {
                    assert(all[k] == a[k]);
                } else {
                    assert(all[k] == b[k - a.len()]);
                }
            }
        }
    }
}

/// Every property below a root that flattens has direct children that
/// resolve.
pub proof fn lemma_root_entries(root: SchemaNode)
    ensures
        root_flat(root) is Some ==> forall|k: int|
            0 <= k < root_flat(root)->0.len() ==> (#[trigger] direct_children(root_flat(root)->0[k])) is Some,
{
    lemma_children_flat_ok(Seq::empty(), root, props_len(root));
}

/// `e` lies strictly below the path whose segments are `segs`.
pub open spec fn extends(e: PathModel, segs: Seq<Seg>) -> bool {
    e.segs.len() > segs.len() && e.segs.subrange(0, segs.len() as int) == segs
}

proof fn lemma_extends_trans(e: PathModel, mid: Seq<Seg>, segs: Seq<Seg>)
    requires
        e.segs.len() >= mid.len(),
        e.segs.subrange(0, mid.len() as int) == mid,
        extends(PathModel { segs: mid, required: e.required, leaf: e.leaf }, segs),
    ensures
        extends(e, segs),
{
    assert(e.segs.subrange(0, segs.len() as int) =~= mid.subrange(0, segs.len() as int));
}

proof fn lemma_node_flat_ext(prefix: Seq<Seg>, name: Seq<char>, d: nat, required: bool, s: SchemaNode)
    ensures
        node_flat(prefix, name, d, required, s) is Some ==> forall|k: int|
            0 <= k < node_flat(prefix, name, d, required, s)->0.len()
                ==> extends(#[trigger] node_flat(prefix, name, d, required, s)->0[k], prefix),
    decreases s, props_len(s) + 1,
{
    if s.properties is None && s.items is Some {
        match s.items {
            Some(Items::Single(b)) => {
                lemma_node_flat_ext(prefix, name, d + 1, required, *b);
            },
            _ => {},
        }
    } else {
        let segs = prefix.push(Seg { name, depth: d });
        let me = PathModel { segs, required, leaf: s };
        lemma_children_flat_ext(segs, s, props_len(s));
        if node_flat(prefix, name, d, required, s) is Some {
            let rest = children_flat(segs, s, props_len(s))->0;
            let all = node_flat(prefix, name, d, required, s)->0;
            assert(all == seq![me] + rest);
            assert(segs.subrange(0, prefix.len() as int) =~= prefix);
            assert forall|k: int| 0 <= k < all.len() implies extends(#[trigger] all[k], prefix) by {
                if k > 0 {
                    let e = rest[k - 1];
                    assert(all[k] == e);
                    assert(extends(e, segs));
                    lemma_extends_trans(e, segs, prefix);
                }
            }
        }
    }
}

proof fn lemma_children_flat_ext(segs: Seq<Seg>, parent: SchemaNode, n: int)
    ensures
        children_flat(segs, parent, n) is Some ==> forall|k: int|
            0 <= k < children_flat(segs, parent, n)->0.len()
                ==> extends(#[trigger] children_flat(segs, parent, n)->0[k], segs),
    decreases parent, n,
{
    if !(n <= 0 || parent.properties is None || n > props_len(parent)) {
        let p = parent.properties->0@[n - 1];
        lemma_children_flat_ext(segs, parent, n - 1);
        lemma_node_flat_ext(segs, p.name@, 0, in_required(parent, p.name@), parent.properties->0@[n - 1].schema);
        if children_flat(segs, parent, n) is Some {
            let a = children_flat(segs, parent, n - 1)->0;
            let b = node_flat(segs, p.name@, 0, in_required(parent, p.name@), p.schema)->0;
            let all = children_flat(segs, parent, n)->0;
            assert(all == a + b);
            assert forall|k: int| 0 <= k < all.len() implies extends(#[trigger] all[k], segs) by {
                if k < a.len() {
                    assert(all[k] == a[k]);
                } else {
                    assert(all[k] == b[k - a.len()]);
                }
            }
        }
    }
}

/// The flattening of a path starts with the path itself, and every later
/// entry is a descendant: its segments strictly extend the path's.
pub proof fn lemma_flatten_descendants(p: PathModel)
    ensures
        path_flat(p) is Some ==> {
            let f = path_flat(p)->0;
            &&& f.len() >= 1
            &&& f[0] == p
            &&& forall|k: int| 1 <= k < f.len() ==> extends(#[trigger] f[k], p.segs)
        },
{
    lemma_children_flat_ext(p.segs, p.leaf, props_len(p.leaf));
    if path_flat(p) is Some {
        let rest = children_flat(p.segs, p.leaf, props_len(p.leaf))->0;
        let f = path_flat(p)->0;
        assert forall|k: int| 1 <= k < f.len() implies extends(#[trigger] f[k], p.segs) by {
            assert(f[k] == rest[k - 1]);
        }
    }
}

/// One reachable property: its local name, its full dotted name, whether its
/// parent requires it, and its effective schema.
pub struct PropertyInfo<'a> {
    pub name: String,
    pub full_name: String,
    pub required: bool,
    pub schema: &'a SchemaNode,
    pub segs: Ghost<Seq<Seg>>,
}

/// The models of a sequence of properties.
pub open spec fn models<'a>(v: Seq<PropertyInfo<'a>>) -> Seq<PathModel> {
    v.map_values(|x: PropertyInfo<'a>| x@)
}

/// Every property of the sequence is well formed.
pub open spec fn all_wf<'a>(v: Seq<PropertyInfo<'a>>) -> bool {
    forall|k: int| 0 <= k < v.len() ==> (#[trigger] v[k]).wf()
}

/// What a caller hands to the resolver for the parent: no name for a
/// root, else the parent's full name, which renders `segs`.
pub open spec fn parent_ok(parent_name: Option<&String>, segs: Seq<Seg>) -> bool {
    match parent_name {
        None => segs.len() == 0,
        Some(f) => segs.len() > 0 && f@ == render(segs),
    }
}

impl<'a> PropertyInfo<'a> {
    pub open spec fn view(&self) -> PathModel {
        PathModel { segs: self.segs@, required: self.required, leaf: *self.schema }
    }

    /// The names agree with the segments.
    pub open spec fn wf(&self) -> bool {
        &&& self.segs@.len() > 0
        &&& self.full_name@ == render(self.segs@)
        &&& self.name@ == self.segs@.last().name
        &&& (self.schema.properties is Some || self.schema.items is None)
    }

    /// A copy of this property.
    pub fn duplicate(&self) -> (r: Self)
        ensures
            r@ == self@,
            self.wf() ==> r.wf(),
    {
        PropertyInfo {
            name: self.name.clone(),
            full_name: self.full_name.clone(),
            required: self.required,
            schema: self.schema,
            segs: self.segs,
        }
    }

    /// The local name: the last segment's name, without array markers.
    pub fn name(&self) -> (r: &str)
        requires
            self.wf(),
        ensures
            r@ == self@.segs.last().name,
    {
        self.name.as_str()
    }

    /// Whether the parent's `required` set lists this property.
    pub fn is_required(&self) -> (r: bool)
        ensures
            r == self@.required,
    {
        self.required
    }

    /// The effective schema, after unwrapping arrays.
    pub fn schema(&self) -> (r: &'a SchemaNode)
        ensures
            *r == self@.leaf,
    {
        self.schema
    }

    /// The effective schema's declared type, or `"object"`.
    pub fn type_(&self) -> (r: &'a str)
        ensures
            r@ == type_of(self@.leaf),
    {
        self.schema.type_()
    }

    /// The full name: segment names joined by `.`, each followed by one `[]`
    /// per unwrapped array level.
    pub fn full_name(&self) -> (r: String)
        requires
            self.wf(),
        ensures
            r@ == render(self@.segs),
    {
        self.full_name.clone()
    }

    /// The direct children, in declared order.
    pub fn property_iter(self) -> (r: Result<Vec<PropertyInfo<'a>>, SchemaError>)
        requires
            self.wf(),
        ensures
            match direct_children(self@) {
                None => r is Err,
                Some(cs) => r is Ok && models(r->Ok_0@) == cs && all_wf(r->Ok_0@),
            },
    {
        children_of(Some(&self.full_name), self.segs, self.schema)
    }

    /// This property followed by all its descendants, in pre-order.
    pub fn property_flat_iter(self) -> (r: Result<Vec<PropertyInfo<'a>>, SchemaError>)
        requires
            self.wf(),
        ensures
            match path_flat(self@) {
                None => r is Err,
                Some(f) => r is Ok && models(r->Ok_0@) == f && all_wf(r->Ok_0@),
            },
    {
        let mut out: Vec<PropertyInfo<'a>> = Vec::new();
        proof {
            assert(models(out@) =~= Seq::<PathModel>::empty());
        }
        match flatten_path(&self, &mut out) {
            Ok(()) => {
                proof {
                    assert(models(out@) =~= path_flat(self@)->0);
                }
                Ok(out)
            },
            Err(e) => Err(e),
        }
    }
}

impl SchemaNode {
    /// The properties declared directly on this root, in declared order.
    pub fn property_iter<'a>(&'a self) -> (r: Result<Vec<PropertyInfo<'a>>, SchemaError>)
        ensures
            match children_spec(Seq::empty(), *self, props_len(*self)) {
                None => r is Err,
                Some(cs) => r is Ok && models(r->Ok_0@) == cs && all_wf(r->Ok_0@),
            },
    {
        children_of(None, Ghost(Seq::empty()), self)
    }

    /// Every property below this root, in pre-order; the root itself is
    /// not one of them.
    pub fn property_flat_iter<'a>(&'a self) -> (r: Result<Vec<PropertyInfo<'a>>, SchemaError>)
        ensures
            match root_flat(*self) {
                None => r is Err,
                Some(f) => r is Ok && models(r->Ok_0@) == f && all_wf(r->Ok_0@),
            },
    {
        proof {
            lemma_root_flat(*self);
            lemma_children_spec(Seq::empty(), *self, props_len(*self));
        }
        let cs = match children_of(None, Ghost(Seq::empty()), self) {
            Ok(cs) => cs,
            Err(e) => return Err(e),
        };
        let mut out: Vec<PropertyInfo<'a>> = Vec::new();
        proof {
            assert(models(out@) =~= Seq::<PathModel>::empty());
            assert forall|k: int| 0 <= k < cs@.len() implies below(*self, #[trigger] cs@[k]@) by {
                assert(models(cs@)[k] == cs@[k]@);
            }
        }
        match flatten_list(Ghost(*self), &cs, &mut out) {
            Ok(()) => {
                proof {
                    assert(models(out@) =~= root_flat(*self)->0);
                }
                Ok(out)
            },
            Err(e) => Err(e),
        }
    }
}

/// The end of an unwrapped chain of array items: the schema reached, the
/// segment label and the number of levels.
struct Unwrapped<'a> {
    leaf: &'a SchemaNode,
    label: String,
    depth: Ghost<nat>,
}

fn unwrap_items<'a>(s: &'a SchemaNode, label: String, d: Ghost<nat>, name: Ghost<Seq<char>>) -> (r: Option<Unwrapped<'a>>)
    requires
        label@ == name@ + brackets(d@),
    ensures
        match unwrap_spec(*s, d@) {
            None => r is None,
            Some((leaf, d2)) => r is Some && *r->0.leaf == leaf && r->0.depth@ == d2 && r->0.label@ == name@ + brackets(d2),
        },
    decreases s,
{
    if s.properties.is_none() && s.items.is_some() {
        match &s.items {
            Some(Items::Single(b)) => {
                let mut l = label;
                l.append("[]");
                proof {
                    reveal_strlit("[]");
                    assert(l@ =~= name@ + brackets((d@ + 1) as nat));
                }
                unwrap_items(&**b, l, Ghost((d@ + 1) as nat), name)
            },
            _ => None,
        }
    } else {
        Some(Unwrapped { leaf: s, label, depth: d })
    }
}

fn resolve<'a>(parent_name: Option<&String>, prefix: Ghost<Seq<Seg>>, name: &String, required: bool, schema: &'a SchemaNode) -> (r: Result<PropertyInfo<'a>, SchemaError>)
    requires
        parent_ok(parent_name, prefix@),
    ensures
        match resolve_spec(prefix@, name@, required, *schema) {
            None => r is Err,
            Some(m) => r is Ok && r->Ok_0.wf() && r->Ok_0@ == m,
        },
{
    proof {
        assert(name@ =~= name@ + brackets(0));
        lemma_unwrap(*schema, 0);
    }
    match unwrap_items(schema, name.clone(), Ghost(0), Ghost(name@)) {
        None => Err(SchemaError::UnsupportedSchemaShape),
        Some(Unwrapped { leaf, label, depth: d }) => {
            let ghost seg = Seg { name: name@, depth: d@ };
            let ghost segs = prefix@.push(seg);
            let full_name = match parent_name {
                None => {
                    proof {
                        assert(segs[0] == seg);
                    }
                    label
                },
                Some(f) => {
                    let mut full = f.clone();
                    full.append(".");
                    full.append(label.as_str());
                    proof {
                        reveal_strlit(".");
                        assert(segs.drop_last() =~= prefix@);
                        assert(full@ =~= render(segs));
                    }
                    full
                },
            };
            Ok(PropertyInfo { name: name.clone(), full_name, required, schema: leaf, segs: Ghost(segs) })
        },
    }
}

fn children_of<'a>(parent_name: Option<&String>, segs: Ghost<Seq<Seg>>, parent: &'a SchemaNode) -> (r: Result<Vec<PropertyInfo<'a>>, SchemaError>)
    requires
        parent_ok(parent_name, segs@),
    ensures
        match children_spec(segs@, *parent, props_len(*parent)) {
            None => r is Err,
            Some(cs) => r is Ok && models(r->Ok_0@) == cs && all_wf(r->Ok_0@),
        },
{
    let mut out: Vec<PropertyInfo<'a>> = Vec::new();
    proof {
        assert(models(out@) =~= Seq::<PathModel>::empty());
    }
    match &parent.properties {
        None => Ok(out),
        Some(props) => {
            let mut k: usize = 0;
            while k < props.len()
                invariant
                    0 <= k <= props@.len(),
                    parent.properties == Some(*props),
                    parent_ok(parent_name, segs@),
                    children_spec(segs@, *parent, k as int) == Some(models(out@)),
                    all_wf(out@),
                decreases props@.len() - k,
            {
                let p = &props[k];
                let req = parent.requires_name(&p.name);
                match resolve(parent_name, segs, &p.name, req, &p.schema) {
                    Ok(c) => {
                        let ghost before = out@;
                        out.push(c);
                        proof {
                            assert(models(out@) =~= models(before).push(c@));
                        }
                    },
                    Err(e) => {
                        proof {
                            lemma_children_spec_none(segs@, *parent, k as int + 1, props_len(*parent));
                        }
                        return Err(e);
                    },
                }
                k = k + 1;
            }
            Ok(out)
        },
    }
}

fn flatten_path<'a>(p: &PropertyInfo<'a>, out: &mut Vec<PropertyInfo<'a>>) -> (r: Result<(), SchemaError>)
    requires
        p.wf(),
    ensures
        match path_flat(p@) {
            None => r is Err,
            Some(f) => r is Ok && models(final(out)@) == models(old(out)@) + f,
        },
        all_wf(old(out)@) ==> all_wf(final(out)@),
    decreases *p.schema, 1int,
{
    proof {
        lemma_flatten_preorder(p@);
        lemma_children_spec(p@.segs, p@.leaf, props_len(p@.leaf));
    }
    let cs = match children_of(Some(&p.full_name), p.segs, p.schema) {
        Ok(cs) => cs,
        Err(e) => return Err(e),
    };
    let ghost before = out@;
    out.push(p.duplicate());
    proof {
        assert(models(out@) =~= models(before).push(p@));
        assert forall|k: int| 0 <= k < cs@.len() implies below(*p.schema, #[trigger] cs@[k]@) by {
            assert(models(cs@)[k] == cs@[k]@);
        }
    }
    let res = flatten_list(Ghost(*p.schema), &cs, out);
    proof {
        if res is Ok {
            let rest = flat_all(models(cs@))->0;
            assert(models(out@) =~= models(before) + (seq![p@] + rest));
        }
    }
    res
}

fn flatten_list<'a>(parent: Ghost<SchemaNode>, cs: &Vec<PropertyInfo<'a>>, out: &mut Vec<PropertyInfo<'a>>) -> (r: Result<(), SchemaError>)
    requires
        all_wf(cs@),
        forall|k: int| 0 <= k < cs@.len() ==> below(parent@, #[trigger] cs@[k]@),
    ensures
        match flat_all(models(cs@)) {
            None => r is Err,
            Some(f) => r is Ok && models(final(out)@) == models(old(out)@) + f,
        },
        all_wf(old(out)@) ==> all_wf(final(out)@),
    decreases parent@, 0int,
{
    let ghost start = out@;
    let mut k: usize = 0;
    proof {
        assert(models(cs@).subrange(0, 0) =~= Seq::<PathModel>::empty());
        assert(models(out@) =~= models(start) + Seq::<PathModel>::empty());
    }
    while k < cs.len()
        invariant
            0 <= k <= cs@.len(),
            all_wf(cs@),
            forall|j: int| 0 <= j < cs@.len() ==> below(parent@, #[trigger] cs@[j]@),
            flat_all(models(cs@).subrange(0, k as int)) is Some,
            models(out@) == models(start) + flat_all(models(cs@).subrange(0, k as int))->0,
            all_wf(start) ==> all_wf(out@),
            start == old(out)@,
        decreases cs@.len() - k,
    {
        let ghost before = out@;
        let ghost ms = models(cs@);
        proof {
            assert(ms.subrange(0, k as int + 1).drop_last() =~= ms.subrange(0, k as int));
            assert(ms.subrange(0, k as int + 1).last() == cs@[k as int]@);
            assert(cs@[k as int].wf());
        }
        match flatten_path(&cs[k], out) {
            Ok(()) => {
                proof {
                    let a = flat_all(ms.subrange(0, k as int))->0;
                    let b = path_flat(cs@[k as int]@)->0;
                    assert(models(out@) =~= models(start) + (a + b));
                }
            },
            Err(e) => {
                proof {
                    lemma_flat_all_none(ms, k as int + 1);
                    assert(all_wf(start) ==> all_wf(out@));
                }
                return Err(e);
            },
        }
        k = k + 1;
    }
    proof {
        assert(models(cs@).subrange(0, k as int) =~= models(cs@));
    }
    Ok(())
}

/// Something whose properties can be listed: directly, or flattened in
/// pre-order.
pub trait HasProperties<'a>: Sized {
    /// What a value must satisfy before its properties are listed.
    spec fn ready(&self) -> bool;

    /// The direct children, or `None` where they cannot be resolved.
    spec fn children_model(&self) -> Option<Seq<PathModel>>;

    /// The pre-order flattening, or `None` where it cannot be computed.
    spec fn flat_model(&self) -> Option<Seq<PathModel>>;

    fn property_iter(self) -> (r: Result<Vec<PropertyInfo<'a>>, SchemaError>)
        requires
            self.ready(),
        ensures
            match self.children_model() {
                None => r is Err,
                Some(cs) => r is Ok && models(r->Ok_0@) == cs && all_wf(r->Ok_0@),
            },
    ;

    fn property_flat_iter(self) -> (r: Result<Vec<PropertyInfo<'a>>, SchemaError>)
        requires
            self.ready(),
        ensures
            match self.flat_model() {
                None => r is Err,
                Some(f) => r is Ok && models(r->Ok_0@) == f && all_wf(r->Ok_0@),
            },
    ;
}

impl<'a> HasProperties<'a> for PropertyInfo<'a> {
    open spec fn ready(&self) -> bool {
        self.wf()
    }

    open spec fn children_model(&self) -> Option<Seq<PathModel>> {
        direct_children(self@)
    }

    open spec fn flat_model(&self) -> Option<Seq<PathModel>> {
        path_flat(self@)
    }

    fn property_iter(self) -> (r: Result<Vec<PropertyInfo<'a>>, SchemaError>) {
        PropertyInfo::property_iter(self)
    }

    fn property_flat_iter(self) -> (r: Result<Vec<PropertyInfo<'a>>, SchemaError>) {
        PropertyInfo::property_flat_iter(self)
    }
}

impl<'a> HasProperties<'a> for &'a SchemaNode {
    open spec fn ready(&self) -> bool {
        true
    }

    open spec fn children_model(&self) -> Option<Seq<PathModel>> {
        children_spec(Seq::empty(), **self, props_len(**self))
    }

    open spec fn flat_model(&self) -> Option<Seq<PathModel>> {
        root_flat(**self)
    }

    fn property_iter(self) -> (r: Result<Vec<PropertyInfo<'a>>, SchemaError>) {
        SchemaNode::property_iter(self)
    }

    fn property_flat_iter(self) -> (r: Result<Vec<PropertyInfo<'a>>, SchemaError>) {
        SchemaNode::property_flat_iter(self)
    }
}

} // verus!
