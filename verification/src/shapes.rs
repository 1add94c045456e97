//! Shape trees: primitives, groups and CSG nodes.

use vstd::prelude::*;

verus! {

/// A shape is a primitive leaf, a group of child shapes, or a CSG node.
/// A primitive carries the identity of the concrete surface it stands for;
/// the numeric geometry itself lives with the caller.
pub enum Shape {
    Primitive(usize),
    Group(Group),
    Csg(Box<crate::csg::Csg>),
}

/// An ordered collection of child shapes.
pub struct Group {
    pub objects: Vec<Shape>,
}

impl Group {
    /// The group's child shapes.
    pub fn objects(&self) -> (r: &Vec<Shape>)
        ensures
            r == &self.objects,
    {
        &self.objects
    }
}

/// Accumulates the children of a group before it is built.
pub struct GroupBuilder {
    pub objects: Vec<Shape>,
}

impl GroupBuilder {
    /// A builder with no children yet.
    pub fn new() -> (r: GroupBuilder)
        ensures
            r.objects@ == Seq::<Shape>::empty(),
    {
        GroupBuilder { objects: Vec::new() }
    }

    /// Replace the accumulated children.
    pub fn set_objects(self, objects: Vec<Shape>) -> (r: GroupBuilder)
        ensures
            r.objects == objects,
    {
        GroupBuilder { objects }
    }

    /// Append one child.
    pub fn add_object(self, object: Shape) -> (r: GroupBuilder)
        ensures
            r.objects@ == self.objects@.push(object),
    {
        let mut objects = self.objects;
        objects.push(object);
        GroupBuilder { objects }
    }
}

impl crate::builder::Buildable for Group {
    type Builder = GroupBuilder;

    fn builder() -> (r: GroupBuilder) {
        GroupBuilder::new()
    }
}

impl crate::builder::ConsumingBuilder for GroupBuilder {
    type Built = Group;

    open spec fn builds(self) -> Group {
        Group { objects: self.objects }
    }

    fn build(self) -> (r: Group) {
        Group { objects: self.objects }
    }
}

impl crate::builder::BuildInto<Shape> for GroupBuilder {
    open spec fn builds_into(self) -> Shape {
        Shape::Group(Group { objects: self.objects })
    }

    fn build_into(self) -> (r: Shape) {
        Shape::Group(Group { objects: self.objects })
    }
}

impl Shape {
    /// The set of primitive identities in this subtree.
    pub open spec fn id_set(self) -> Set<usize>
        decreases self,
    {
        match self {
            Shape::Primitive(id) => Set::empty().insert(id),
            Shape::Group(g) => Self::seq_id_set(g.objects@),
            Shape::Csg(c) => c.lshape.id_set().union(c.rshape.id_set()),
        }
    }

    /// The set of primitive identities over a sequence of sibling shapes.
    pub open spec fn seq_id_set(shapes: Seq<Shape>) -> Set<usize>
        decreases shapes,
    {
        if shapes.len() == 0 {
            Set::empty()
        } else {
            Self::seq_id_set(shapes.subrange(0, shapes.len() - 1)).union(
                shapes[shapes.len() - 1].id_set(),
            )
        }
    }

    /// Whether the primitive with identity `id` lies in this subtree.
    #[verifier::loop_isolation(false)]
    pub fn contains(&self, id: usize) -> (r: bool)
        ensures
            r == self.id_set().contains(id),
        decreases *self,
    {
        match self {
            Shape::Primitive(own) => *own == id,
            Shape::Group(g) => {
                let mut i: usize = 0;
                let mut found = false;
                while i < g.objects.len()
                    invariant
                        0 <= i <= g.objects.len(),
                        found == Self::seq_id_set(g.objects@.take(i as int)).contains(id),
                    decreases g.objects.len() - i,
                {
                    proof {
                        assert(decreases_to!(*self => self->Group_0));
                        assert(decreases_to!(self->Group_0 => self->Group_0.objects@[i as int]));
                        assert(decreases_to!(*self => g.objects@[i as int]));
                    }
                    if g.objects[i].contains(id) {
                        found = true;
                    }
                    proof {
                        assert(g.objects@.take(i + 1).subrange(0, i as int) =~= g.objects@.take(
                            i as int,
                        ));
                        assert(g.objects@.take(i + 1)[i as int] == g.objects@[i as int]);
                    }
                    i = i + 1;
                }
                proof {
                    assert(g.objects@.take(g.objects@.len() as int) =~= g.objects@);
                }
                found
            },
            Shape::Csg(c) => c.lshape.contains(id) || c.rshape.contains(id),
        }
    }
}

} // verus!
