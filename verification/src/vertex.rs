//! Vertex formats: how the fields of a vertex type bind to shader inputs.

use vstd::prelude::*;
use crate::type_tag::{ElementType, TypeTag};

verus! {

/// The location that asks for binding by the field's name.
pub const BY_NAME: i32 = -1;

/// One field of a vertex type, as its author declares it.
#[derive(Debug, PartialEq, Eq)]
pub struct VertexField {
    pub name: String,
    /// Byte offset of the field in the vertex type's memory layout.
    pub offset: usize,
    pub element: ElementType,
    /// `BY_NAME`, or the slot the author chose.
    pub location: i32,
    pub normalize: bool,
}

/// How one field binds to a vertex input.
#[derive(Debug, PartialEq, Eq)]
pub struct FieldDescriptor {
    pub name: String,
    pub byte_offset: usize,
    /// `BY_NAME` to resolve the input by `name` when the program is linked,
    /// otherwise the slot to bind to.
    pub location: i32,
    pub type_tag: TypeTag,
    /// Whether the GPU rescales an integer value to the unit range when it
    /// reads the attribute.
    pub normalize: bool,
}

/// The descriptors of one vertex type, in declaration order.
#[derive(Debug, PartialEq, Eq)]
pub struct VertexFormat {
    descriptors: Vec<FieldDescriptor>,
}

/// Mathematical model of a [`VertexField`].
pub struct VertexFieldView {
    pub name: Seq<char>,
    pub offset: int,
    pub element: ElementType,
    pub location: int,
    pub normalize: bool,
}

/// Mathematical model of a [`FieldDescriptor`].
pub struct DescriptorView {
    pub name: Seq<char>,
    pub byte_offset: int,
    pub location: int,
    pub type_tag: TypeTag,
    pub normalize: bool,
}

impl View for VertexField {
    type V = VertexFieldView;

    open spec fn view(&self) -> VertexFieldView {
        VertexFieldView {
            name: self.name@,
            offset: self.offset as int,
            element: self.element,
            location: self.location as int,
            normalize: self.normalize,
        }
    }
}

impl View for FieldDescriptor {
    type V = DescriptorView;

    open spec fn view(&self) -> DescriptorView {
        DescriptorView {
            name: self.name@,
            byte_offset: self.byte_offset as int,
            location: self.location as int,
            type_tag: self.type_tag,
            normalize: self.normalize,
        }
    }
}

impl View for VertexFormat {
    type V = Seq<DescriptorView>;

    closed spec fn view(&self) -> Seq<DescriptorView> {
        Seq::new(self.descriptors@.len(), |i: int| self.descriptors@[i]@)
    }
}

impl VertexFieldView {
    /// The descriptor of this field: name, offset, location and normalize
    /// flag as declared, and the tag that the element type maps to.
    pub open spec fn descriptor(self) -> DescriptorView {
        DescriptorView {
            name: self.name,
            byte_offset: self.offset,
            location: self.location,
            type_tag: self.element.tag(),
            normalize: self.normalize,
        }
    }
}

/// The models of a list of declared fields, in order.
pub open spec fn declared_fields(fields: Seq<VertexField>) -> Seq<VertexFieldView> {
    Seq::new(fields.len(), |i: int| fields[i]@)
}

/// The format of a vertex type with the given fields: one descriptor per
/// field, in the same order.
pub open spec fn bindings_of(fields: Seq<VertexFieldView>) -> Seq<DescriptorView> {
    Seq::new(fields.len(), |i: int| fields[i].descriptor())
}

impl VertexField {
    /// A field bound by name and not normalized.
    pub fn new(name: String, offset: usize, element: ElementType) -> (field: VertexField)
        ensures
            field@ == (VertexFieldView {
                name: name@,
                offset: offset as int,
                element,
                location: BY_NAME as int,
                normalize: false,
            }),
    {
        VertexField { name, offset, element, location: BY_NAME, normalize: false }
    }

    /// The same field bound to the explicit slot `slot`.
    pub fn with_location(self, slot: i32) -> (field: VertexField)
        requires
            slot >= 0,
        ensures
            field@ == (VertexFieldView { location: slot as int, ..self@ }),
    {
        VertexField { location: slot, ..self }
    }

    /// The same field with the given normalize flag.
    pub fn with_normalize(self, normalize: bool) -> (field: VertexField)
        ensures
            field@ == (VertexFieldView { normalize, ..self@ }),
    {
        VertexField { normalize, ..self }
    }

    /// The descriptor this field contributes to its type's format.
    pub fn descriptor(&self) -> (d: FieldDescriptor)
        ensures
            d@ == self@.descriptor(),
    {
        FieldDescriptor {
            name: self.name.clone(),
            byte_offset: self.offset,
            location: self.location,
            type_tag: self.element.type_tag(),
            normalize: self.normalize,
        }
    }
}

/// Builds the vertex format of a type from its declared fields.
///
/// Fields keep their order and their offsets. The result depends on the
/// declared fields alone.
pub fn build_bindings(fields: &Vec<VertexField>) -> (format: VertexFormat)
    ensures
        format@ == bindings_of(declared_fields(fields@)),
{
    let mut descriptors: Vec<FieldDescriptor> = Vec::new();
    let mut i: usize = 0;
    while i < fields.len()
        invariant
            i <= fields.len(),
            descriptors.len() == i,
            forall|k: int| 0 <= k < i ==> (#[trigger] descriptors[k])@ == fields[k]@.descriptor(),
        decreases fields.len() - i,
    {
        descriptors.push(fields[i].descriptor());
        i += 1;
    }
    let format = VertexFormat { descriptors };
    assert(format@ =~= bindings_of(declared_fields(fields@)));
    format
}

/// Building the format of the same declared fields twice gives the same
/// descriptors in the same order.
pub proof fn lemma_build_bindings_deterministic(
    fields: Vec<VertexField>,
    first: VertexFormat,
    second: VertexFormat,
)
    requires
        call_ensures(build_bindings, (&fields,), first),
        call_ensures(build_bindings, (&fields,), second),
    ensures
        first@ == second@,
{
}

impl VertexFormat {
    /// Number of descriptors.
    pub fn len(&self) -> (n: usize)
        ensures
            n == self@.len(),
    {
        self.descriptors.len()
    }

    /// The descriptor at `index`, counted in declaration order.
    pub fn get(&self, index: usize) -> (d: Option<&FieldDescriptor>)
        ensures
            d is Some <==> index < self@.len(),
            d matches Some(found) ==> found@ == self@[index as int],
    {
        if index < self.descriptors.len() {
            Some(&self.descriptors[index])
        } else {
            None
        }
    }

    /// All descriptors, in declaration order.
    pub fn descriptors(&self) -> (all: &Vec<FieldDescriptor>)
        ensures
            all@.len() == self@.len(),
            forall|i: int| 0 <= i < all@.len() ==> (#[trigger] all@[i])@ == self@[i],
    {
        &self.descriptors
    }
}

} // verus!
