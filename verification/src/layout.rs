//! Block layouts: the tree that describes the shape of a uniform block.

use vstd::prelude::*;
use crate::type_tag::TypeTag;

verus! {

/// Stride and count of the elements of an array leaf.
#[derive(Clone, Copy, Debug, PartialEq, Eq, Hash, Structural)]
pub struct ArrayShape {
    /// Bytes from the start of one element to the start of the next.
    pub stride: usize,
    /// Number of elements.
    pub count: usize,
}

/// Shape of a block, either synthesized from a host type or reported by
/// shader reflection.
///
/// The members of a `Struct` keep the order in which they were given. Where
/// two members share a name, a lookup by name finds the first.
#[derive(Debug, PartialEq, Eq)]
pub enum BlockLayout {
    Struct { members: Vec<(String, BlockLayout)> },
    Leaf {
        tag: TypeTag,
        /// Byte offset of the value from the start of the block.
        offset: usize,
        /// Present when the leaf is an array of `tag` elements.
        array: Option<ArrayShape>,
    },
}

/// Mathematical model of a [`BlockLayout`]: names are character sequences
/// and offsets are unbounded.
pub enum LayoutView {
    Struct { members: Seq<(Seq<char>, LayoutView)> },
    Leaf { tag: TypeTag, offset: int, array: Option<ArrayShape> },
}

impl View for BlockLayout {
    type V = LayoutView;

    open spec fn view(&self) -> LayoutView {
        self.model()
    }
}

impl BlockLayout {
    /// The layout as a mathematical tree; `layout@` is short for it.
    pub open spec fn model(&self) -> LayoutView
        decreases self,
    {
        match self {
            BlockLayout::Struct { members } => LayoutView::Struct {
                members: Seq::new(
                    members.len() as nat,
                    |i: int|
                        if 0 <= i < members.len() {
                            (members[i].0@, members[i].1.model())
                        } else {
                            arbitrary()
                        },
                ),
            },
            BlockLayout::Leaf { tag, offset, array } => LayoutView::Leaf {
                tag: *tag,
                offset: *offset as int,
                array: *array,
            },
        }
    }
}

/// The models of the members of a struct node, in order.
pub open spec fn members_model(members: Seq<(String, BlockLayout)>) -> Seq<(Seq<char>, LayoutView)> {
    Seq::new(members.len(), |i: int| (members[i].0@, members[i].1@))
}

impl BlockLayout {
    /// The model of a struct node lists the models of its members in order.
    pub proof fn lemma_view_of_members(&self)
        requires
            self is Struct,
        ensures
            self@ is Struct,
            self@->members == members_model(self->members@),
    {
        assert(self@->members =~= members_model(self->members@));
    }
}

impl Clone for BlockLayout {
    /// A deep copy: the result has the same model as `self`.
    fn clone(&self) -> (copy: BlockLayout)
        ensures
            copy@ == self@,
        decreases self,
    {
        match self {
            BlockLayout::Struct { members } => {
                let mut out: Vec<(String, BlockLayout)> = Vec::new();
                let mut i: usize = 0;
                while i < members.len()
                    invariant
                        i <= members.len(),
                        out.len() == i,
                        self is Struct,
                        self->members == *members,
                        forall|j: int|
                            0 <= j < i ==> out[j].0@ == members[j].0@ && out[j].1@
                                == members[j].1@,
                    decreases members.len() - i,
                {
                    assert(decreases_to!(self => members[i as int].1));
                    let name = members[i].0.clone();
                    let inner = members[i].1.clone();
                    out.push((name, inner));
                    i += 1;
                }
                let copy = BlockLayout::Struct { members: out };
                assert(copy@->members =~= self@->members);
                copy
            },
            BlockLayout::Leaf { tag, offset, array } => BlockLayout::Leaf {
                tag: *tag,
                offset: *offset,
                array: *array,
            },
        }
    }
}

} // verus!
