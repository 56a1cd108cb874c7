//! Host-side shapes: what an aggregate type looks like in memory.

use vstd::prelude::*;
use crate::layout::{ArrayShape, BlockLayout, LayoutView};
use crate::type_tag::TypeTag;

verus! {

/// Shape of a host type that takes part in a uniform block.
#[derive(Debug, PartialEq, Eq)]
pub enum HostType {
    /// A scalar, vector or matrix, or an array of them.
    Leaf { tag: TypeTag, array: Option<ArrayShape> },
    /// A struct: named fields in declaration order.
    Aggregate { fields: Vec<HostField> },
}

/// One field of a host aggregate.
#[derive(Debug, PartialEq, Eq)]
pub struct HostField {
    pub name: String,
    /// Byte offset of the field from the start of the aggregate that owns it.
    pub offset: usize,
    pub ty: HostType,
}

/// Mathematical model of a [`HostType`].
pub enum HostView {
    Leaf { tag: TypeTag, array: Option<ArrayShape> },
    Aggregate { fields: Seq<FieldView> },
}

/// Mathematical model of a [`HostField`].
pub struct FieldView {
    pub name: Seq<char>,
    pub offset: int,
    pub ty: HostView,
}

impl View for HostType {
    type V = HostView;

    open spec fn view(&self) -> HostView {
        self.model()
    }
}

impl View for HostField {
    type V = FieldView;

    open spec fn view(&self) -> FieldView {
        FieldView { name: self.name@, offset: self.offset as int, ty: self.ty@ }
    }
}

impl HostType {
    /// The shape as a mathematical tree; `host@` is short for it.
    pub open spec fn model(&self) -> HostView
        decreases self,
    {
        match self {
            HostType::Leaf { tag, array } => HostView::Leaf { tag: *tag, array: *array },
            HostType::Aggregate { fields } => HostView::Aggregate {
                fields: Seq::new(
                    fields.len() as nat,
                    |i: int|
                        if 0 <= i < fields.len() {
                            FieldView {
                                name: fields[i].name@,
                                offset: fields[i].offset as int,
                                ty: fields[i].ty.model(),
                            }
                        } else {
                            arbitrary()
                        },
                ),
            },
        }
    }
}

/// The models of the fields of an aggregate, in order.
pub open spec fn fields_model(fields: Seq<HostField>) -> Seq<FieldView> {
    Seq::new(fields.len(), |i: int| fields[i]@)
}

impl HostView {
    /// The layout this type asks for when it is placed `base` bytes into a
    /// block: every leaf at its own offset plus the offsets of the fields
    /// that lead to it plus `base`, every aggregate as a struct of its
    /// fields in declaration order.
    pub open spec fn layout(self, base: int) -> LayoutView
        decreases self,
    {
        match self {
            HostView::Leaf { tag, array } => LayoutView::Leaf { tag, offset: base, array },
            HostView::Aggregate { fields } => LayoutView::Struct {
                members: Seq::new(
                    fields.len(),
                    |i: int|
                        if 0 <= i < fields.len() {
                            (fields[i].name, fields[i].ty.layout(fields[i].offset + base))
                        } else {
                            arbitrary()
                        },
                ),
            },
        }
    }

    /// Whether every offset that placing this type at `base` gives rise to
    /// is a machine offset.
    pub open spec fn fits(self, base: int) -> bool
        decreases self,
    {
        match self {
            HostView::Leaf { .. } => base <= usize::MAX,
            HostView::Aggregate { fields } => {
                &&& base <= usize::MAX
                &&& forall|i: int|
                    0 <= i < fields.len() ==> (#[trigger] fields[i]).ty.fits(fields[i].offset + base)
            },
        }
    }

    /// A type fits only at a base that is itself a machine offset.
    pub proof fn lemma_fits_bounds_base(self, base: int)
        requires
            self.fits(base),
        ensures
            base <= usize::MAX,
    {
    }

    /// Whether no aggregate in this type declares two fields of one name.
    pub open spec fn names_distinct(self) -> bool
        decreases self,
    {
        match self {
            HostView::Leaf { .. } => true,
            HostView::Aggregate { fields } => {
                &&& forall|i: int, j: int|
                    0 <= i < j < fields.len() ==> (#[trigger] fields[i]).name != (
                    #[trigger] fields[j]).name
                &&& forall|i: int| 0 <= i < fields.len() ==> (#[trigger] fields[i]).ty.names_distinct()
            },
        }
    }
}

impl HostType {
    /// The model of an aggregate lists the models of its fields in order.
    pub proof fn lemma_view_of_fields(&self)
        requires
            self is Aggregate,
        ensures
            self@ is Aggregate,
            self@->fields == fields_model(self->fields@),
    {
        assert(self@->fields =~= fields_model(self->fields@));
    }

    /// Whether this type can be placed at `base_offset` without any of its
    /// offsets leaving the machine's range.
    pub fn fits(&self, base_offset: usize) -> (ok: bool)
        ensures
            ok == self@.fits(base_offset as int),
        decreases self,
    {
        match self {
            HostType::Leaf { .. } => true,
            HostType::Aggregate { fields } => {
                let mut i: usize = 0;
                while i < fields.len()
                    invariant
                        i <= fields.len(),
                        self is Aggregate,
                        self->fields == *fields,
                        forall|j: int|
                            0 <= j < i ==> (#[trigger] self@->fields[j]).ty.fits(
                                self@->fields[j].offset + base_offset,
                            ),
                    decreases fields.len() - i,
                {
                    proof {
                        self.lemma_view_of_fields();
                        assert(self@->fields[i as int] == fields[i as int]@);
                        assert(decreases_to!(self => fields[i as int].ty));
                        if fields[i as int].ty@.fits(fields[i as int].offset + base_offset) {
                            fields[i as int].ty@.lemma_fits_bounds_base(
                                fields[i as int].offset + base_offset,
                            );
                        }
                    }
                    match base_offset.checked_add(fields[i].offset) {
                        None => {
                            return false;
                        },
                        Some(at) => {
                            if !fields[i].ty.fits(at) {
                                return false;
                            }
                        },
                    }
                    i += 1;
                }
                proof {
                    self.lemma_view_of_fields();
                }
                true
            },
        }
    }

    /// Whether no aggregate in this type declares two fields of one name.
    pub fn has_distinct_names(&self) -> (ok: bool)
        ensures
            ok == self@.names_distinct(),
        decreases self,
    {
        match self {
            HostType::Leaf { .. } => true,
            HostType::Aggregate { fields } => {
                proof {
                    self.lemma_view_of_fields();
                }
                let ghost declared = self@->fields;
                let mut j: usize = 0;
                while j < fields.len()
                    invariant
                        j <= fields.len(),
                        self is Aggregate,
                        self->fields == *fields,
                        self@ == (HostView::Aggregate { fields: declared }),
                        declared == fields_model(fields@),
                        forall|a: int, b: int|
                            0 <= a < b < j ==> (#[trigger] declared[a]).name != (
                            #[trigger] declared[b]).name,
                        forall|a: int| 0 <= a < j ==> (#[trigger] declared[a]).ty.names_distinct(),
                    decreases fields.len() - j,
                {
                    proof {
                        assert(declared[j as int] == fields[j as int]@);
                        assert(decreases_to!(self => fields[j as int].ty));
                    }
                    let mut i: usize = 0;
                    while i < j
                        invariant
                            i <= j < fields.len(),
                            self@ == (HostView::Aggregate { fields: declared }),
                            declared == fields_model(fields@),
                            forall|a: int|
                                0 <= a < i ==> (#[trigger] declared[a]).name != declared[j as int].name,
                        decreases j - i,
                    {
                        if fields[i].name == fields[j].name {
                            assert(declared[i as int].name == declared[j as int].name);
                            return false;
                        }
                        i += 1;
                    }
                    if !fields[j].ty.has_distinct_names() {
                        assert(!declared[j as int].ty.names_distinct());
                        return false;
                    }
                    j += 1;
                }
                true
            },
        }
    }

    /// Synthesizes the layout this type asks for at `base_offset`.
    pub fn build_layout(&self, base_offset: usize) -> (layout: BlockLayout)
        requires
            self@.fits(base_offset as int),
        ensures
            layout@ == self@.layout(base_offset as int),
        decreases self,
    {
        match self {
            HostType::Leaf { tag, array } => BlockLayout::Leaf {
                tag: *tag,
                offset: base_offset,
                array: *array,
            },
            HostType::Aggregate { fields } => {
                let mut members: Vec<(String, BlockLayout)> = Vec::new();
                let mut i: usize = 0;
                while i < fields.len()
                    invariant
                        i <= fields.len(),
                        members.len() == i,
                        self is Aggregate,
                        self->fields == *fields,
                        self@.fits(base_offset as int),
                        forall|j: int|
                            0 <= j < i ==> (#[trigger] members[j]).0@ == fields[j].name@
                                && members[j].1@ == fields[j].ty@.layout(
                                fields[j].offset + base_offset,
                            ),
                    decreases fields.len() - i,
                {
                    proof {
                        self.lemma_view_of_fields();
                        assert(self@->fields[i as int] == fields[i as int]@);
                        assert(decreases_to!(self => fields[i as int].ty));
                        fields[i as int].ty@.lemma_fits_bounds_base(
                            fields[i as int].offset + base_offset,
                        );
                    }
                    let at: usize = fields[i].offset + base_offset;
                    let inner = fields[i].ty.build_layout(at);
                    members.push((fields[i].name.clone(), inner));
                    i += 1;
                }
                let layout = BlockLayout::Struct { members };
                proof {
                    self.lemma_view_of_fields();
                }
                assert(layout@->members =~= self@.layout(base_offset as int)->members);
                layout
            },
        }
    }
}

} // verus!
