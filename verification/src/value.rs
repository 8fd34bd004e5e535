//! The document tree: documents, nodes, values, and the property mapping
//! with unique keys and last-write-wins insertion.

use vstd::prelude::*;
use vstd::string::StringExecFns;

use crate::error::TryFromKdlNodeValueError;

verus! {

/// A typed literal appearing as a node argument or property value.
///
/// A floating-point value is kept as the exact literal text that was
/// parsed; converting it to machine floating point is the consumer's
/// concern, and keeping the text makes the value exact and renderable.
#[derive(Clone, Debug, PartialEq, Eq)]
pub enum KdlScalar {
    /// A string literal, with escapes already resolved.
    Str(String),
    /// An integer literal.
    Int(i64),
    /// A floating-point literal, as written.
    Float(String),
    /// A boolean literal.
    Bool(bool),
    /// The null literal.
    Null,
}

/// A scalar together with its optional type annotation.
#[derive(Clone, Debug, PartialEq, Eq)]
pub struct KdlValue {
    /// The `(name)` annotation written before the value, if any.
    pub annotation: Option<String>,
    /// The value itself.
    pub scalar: KdlScalar,
}

/// One `name=value` pair of a node.
#[derive(Clone, Debug, PartialEq, Eq)]
pub struct KdlProperty {
    /// The property name.
    pub name: String,
    /// The property value.
    pub value: KdlValue,
}

/// A named unit of the document tree: positional values, named properties
/// (keys unique, last write wins), and an optional block of child nodes.
#[derive(Debug, PartialEq, Eq)]
pub struct KdlNode {
    /// The `(name)` annotation written before the identifier, if any.
    pub annotation: Option<String>,
    /// The node identifier; a bare word and a quoted identifier yield the
    /// same representation here.
    pub name: String,
    /// The positional values, in source order.
    pub values: Vec<KdlValue>,
    /// The properties; names are unique, and a duplicate in the source
    /// keeps only the last occurrence.
    pub properties: Vec<KdlProperty>,
    /// The child nodes, when the node has a `{ ... }` block.
    pub children: Option<Vec<KdlNode>>,
}

/// An ordered sequence of top-level nodes.
#[derive(Debug, PartialEq, Eq)]
pub struct KdlDocument {
    /// The top-level nodes, in source order.
    pub nodes: Vec<KdlNode>,
}

/// The property mapping a sequence of pairs denotes: each name maps to the
/// value of its last occurrence.
pub open spec fn props_map(props: Seq<KdlProperty>) -> Map<Seq<char>, KdlValue>
    decreases props.len(),
{
    if props.len() == 0 {
        Map::empty()
    } else {
        props_map(props.drop_last()).insert(props.last().name@, props.last().value)
    }
}

/// Property names are unique within one node.
pub open spec fn props_wf(props: Seq<KdlProperty>) -> bool {
    forall|i: int, j: int|
        0 <= i < j < props.len() ==> props[i].name@ != props[j].name@
}

/// Well-formedness of a node: its own properties have unique names, and so
/// do those of every node below it.
pub open spec fn node_wf(n: KdlNode) -> bool
    decreases n,
{
    &&& props_wf(n.properties@)
    &&& match n.children {
        Some(c) => forall|i: int| 0 <= i < c@.len() ==> node_wf(#[trigger] c@[i]),
        None => true,
    }
}

/// Well-formedness of a document: every node in it is well-formed.
pub open spec fn document_wf(d: KdlDocument) -> bool {
    forall|i: int| 0 <= i < d.nodes@.len() ==> node_wf(#[trigger] d.nodes@[i])
}

/// The mapping holds no stray names: a name is in the mapping exactly
/// when some pair carries it.
pub proof fn lemma_props_map_domain(props: Seq<KdlProperty>, name: Seq<char>)
    ensures
        props_map(props).contains_key(name) <==> exists|i: int|
            0 <= i < props.len() && #[trigger] props[i].name@ == name,
    decreases props.len(),
{
    if props.len() > 0 {
        lemma_props_map_domain(props.drop_last(), name);
        if props.last().name@ == name {
            assert(props[props.len() - 1].name@ == name);
        } else if props_map(props).contains_key(name) {
            let i = choose|i: int|
                0 <= i < props.drop_last().len() && #[trigger] props.drop_last()[i].name@ == name;
            assert(props[i].name@ == name);
        } else {
            assert forall|i: int|
                0 <= i < props.len() && #[trigger] props[i].name@ == name implies false by {
                assert(props.drop_last()[i].name@ == name);
            }
        }
    }
}

/// When names are unique, each pair is visible in the mapping.
pub proof fn lemma_props_map_index(props: Seq<KdlProperty>, i: int)
    requires
        props_wf(props),
        0 <= i < props.len(),
    ensures
        props_map(props).contains_key(props[i].name@),
        props_map(props)[props[i].name@] == props[i].value,
    decreases props.len(),
{
    if i < props.len() - 1 {
        assert(props.drop_last()[i] == props[i]);
        lemma_props_map_index(props.drop_last(), i);
        assert(props[i].name@ != props.last().name@);
    }
}

/// Last write wins: setting a name that is already bound leaves a mapping
/// in which only the later value is found under that name.
pub proof fn lemma_last_write_wins(
    m: Map<Seq<char>, KdlValue>,
    name: Seq<char>,
    v1: KdlValue,
    v2: KdlValue,
)
    ensures
        m.insert(name, v1).insert(name, v2) == m.insert(name, v2),
        m.insert(name, v1).insert(name, v2)[name] == v2,
{
    assert(m.insert(name, v1).insert(name, v2) =~= m.insert(name, v2));
}

impl KdlNode {
    /// A fresh node with the given annotation and identifier and nothing
    /// else.
    pub fn new(annotation: Option<String>, name: String) -> (r: KdlNode)
        ensures
            r.annotation == annotation,
            r.name == name,
            r.values@ =~= Seq::<KdlValue>::empty(),
            r.properties@ =~= Seq::<KdlProperty>::empty(),
            r.children is None,
            node_wf(r),
    {
        KdlNode { annotation, name, values: Vec::new(), properties: Vec::new(), children: None }
    }

    /// Sets a property, replacing the value of an existing name: the
    /// mapping afterwards is the old mapping with `name` bound to `value`,
    /// and names stay unique.
    pub fn set_property(&mut self, name: String, value: KdlValue)
        requires
            props_wf(old(self).properties@),
        ensures
            props_wf(final(self).properties@),
            props_map(final(self).properties@) == props_map(old(self).properties@).insert(
                name@,
                value,
            ),
            final(self).annotation == old(self).annotation,
            final(self).name == old(self).name,
            final(self).values == old(self).values,
            final(self).children == old(self).children,
            !props_map(old(self).properties@).contains_key(name@) ==> final(self).properties@
                == old(self).properties@.push(KdlProperty { name, value }),
            props_map(old(self).properties@).contains_key(name@) ==> final(self).properties@.len()
                == old(self).properties@.len(),
    {
        let n = self.properties.len();
        let mut i: usize = 0;
        while i < n
            invariant
                n == self.properties@.len(),
                0 <= i <= n,
                forall|k: int| 0 <= k < i ==> #[trigger] self.properties@[k].name@ != name@,
                props_wf(self.properties@),
                *self == *old(self),
            decreases n - i,
        {
            if self.properties[i].name.eq(&name) {
                let ghost before = self.properties@;
                let p = KdlProperty { name, value };
                proof {
                    lemma_props_map_update(before, i as int, p);
                    lemma_props_map_index(before, i as int);
                }
                self.properties[i] = p;
                return ;
            }
            i += 1;
        }
        let ghost before = self.properties@;
        proof {
            lemma_props_map_domain(before, name@);
        }
        self.properties.push(KdlProperty { name, value });
        proof {
            assert(self.properties@.drop_last() =~= before);
            assert(props_map(self.properties@) =~= props_map(before).insert(name@, value));
            assert forall|a: int, b: int|
                0 <= a < b < self.properties@.len() implies self.properties@[a].name@
                != self.properties@[b].name@ by {
                if b < before.len() {
                    assert(before[a].name@ != before[b].name@);
                }
            }
        }
    }
}

/// The name of the variant a scalar holds, as the conversion errors
/// report it.
pub open spec fn scalar_kind_name(v: KdlScalar) -> Seq<char> {
    match v {
        KdlScalar::Str(_) => "string"@,
        KdlScalar::Int(_) => "integer"@,
        KdlScalar::Float(_) => "float"@,
        KdlScalar::Bool(_) => "boolean"@,
        KdlScalar::Null => "null"@,
    }
}

impl KdlScalar {
    /// The name of the variant this scalar holds.
    pub fn kind_name(&self) -> (r: String)
        ensures
            r@ == scalar_kind_name(*self),
    {
        match self {
            KdlScalar::Str(_) => String::from_str("string"),
            KdlScalar::Int(_) => String::from_str("integer"),
            KdlScalar::Float(_) => String::from_str("float"),
            KdlScalar::Bool(_) => String::from_str("boolean"),
            KdlScalar::Null => String::from_str("null"),
        }
    }
}

impl KdlValue {
    /// Reads this value as an integer; any other variant is reported as a
    /// type mismatch naming the expected type and the actual variant.
    pub fn as_int(&self) -> (r: Result<i64, TryFromKdlNodeValueError>)
        ensures
            match r {
                Ok(n) => self.scalar == KdlScalar::Int(n),
                Err(e) => !(self.scalar matches KdlScalar::Int(_)) && e.expected@ == "integer"@
                    && e.variant@ == scalar_kind_name(self.scalar),
            },
    {
        match &self.scalar {
            KdlScalar::Int(n) => Ok(*n),
            other => Err(
                TryFromKdlNodeValueError {
                    expected: String::from_str("integer"),
                    variant: other.kind_name(),
                },
            ),
        }
    }

    /// Reads this value as a boolean.
    pub fn as_bool(&self) -> (r: Result<bool, TryFromKdlNodeValueError>)
        ensures
            match r {
                Ok(b) => self.scalar == KdlScalar::Bool(b),
                Err(e) => !(self.scalar matches KdlScalar::Bool(_)) && e.expected@ == "boolean"@
                    && e.variant@ == scalar_kind_name(self.scalar),
            },
    {
        match &self.scalar {
            KdlScalar::Bool(b) => Ok(*b),
            other => Err(
                TryFromKdlNodeValueError {
                    expected: String::from_str("boolean"),
                    variant: other.kind_name(),
                },
            ),
        }
    }

    /// Reads this value as a string.
    pub fn as_string(&self) -> (r: Result<String, TryFromKdlNodeValueError>)
        ensures
            match r {
                Ok(t) => self.scalar matches KdlScalar::Str(u) && t == u,
                Err(e) => !(self.scalar matches KdlScalar::Str(_)) && e.expected@ == "string"@
                    && e.variant@ == scalar_kind_name(self.scalar),
            },
    {
        match &self.scalar {
            KdlScalar::Str(t) => Ok(t.clone()),
            other => Err(
                TryFromKdlNodeValueError {
                    expected: String::from_str("string"),
                    variant: other.kind_name(),
                },
            ),
        }
    }

    /// Reads this value as the null literal.
    pub fn as_null(&self) -> (r: Result<(), TryFromKdlNodeValueError>)
        ensures
            match r {
                Ok(_) => self.scalar == KdlScalar::Null,
                Err(e) => !(self.scalar matches KdlScalar::Null) && e.expected@ == "null"@
                    && e.variant@ == scalar_kind_name(self.scalar),
            },
    {
        match &self.scalar {
            KdlScalar::Null => Ok(()),
            other => Err(
                TryFromKdlNodeValueError {
                    expected: String::from_str("null"),
                    variant: other.kind_name(),
                },
            ),
        }
    }
}

/// Replacing the `i`th pair of a unique-keyed sequence by a pair carrying
/// the same name rewrites exactly that binding of the mapping.
proof fn lemma_props_map_update(props: Seq<KdlProperty>, i: int, p: KdlProperty)
    requires
        props_wf(props),
        0 <= i < props.len(),
        p.name@ == props[i].name@,
    ensures
        props_wf(props.update(i, p)),
        props_map(props.update(i, p)) == props_map(props).insert(p.name@, p.value),
    decreases props.len(),
{
    let u = props.update(i, p);
    assert forall|a: int, b: int| 0 <= a < b < u.len() implies u[a].name@ != u[b].name@ by {
        assert(props[a].name@ != props[b].name@);
    }
    if i == props.len() - 1 {
        assert(u.drop_last() =~= props.drop_last());
        assert(props_map(u) =~= props_map(props).insert(p.name@, p.value));
    } else {
        assert(u.drop_last() =~= props.drop_last().update(i, p));
        assert(props_wf(props.drop_last())) by {
            assert forall|a: int, b: int|
                0 <= a < b < props.drop_last().len() implies props.drop_last()[a].name@
                != props.drop_last()[b].name@ by {
                assert(props[a].name@ != props[b].name@);
            }
        }
        lemma_props_map_update(props.drop_last(), i, p);
        assert(props[i].name@ != props.last().name@);
        assert(props_map(u) =~= props_map(props).insert(p.name@, p.value));
    }
}

} // verus!
