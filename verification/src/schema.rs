//! The shape model: what a type writes to the wire, kind by kind.

use vstd::prelude::*;

verus! {

/// The shape of a serialized value.
///
/// A primitive kind fixes how its bytes are read. A sequence, a map and an
/// option record that such a value stands there, not what it is made of. A
/// struct lists its fields in the order in which they are written.
#[derive(Debug, PartialEq, Eq)]
pub enum Schema {
    Str,
    Sequence,
    Mapping,
    I8,
    U8,
    I16,
    U16,
    I32,
    U32,
    I64,
    U64,
    I128,
    U128,
    F32,
    F64,
    Bool,
    Char,
    Unit,
    Bytes,
    Option,
    ByteBuf,
    String,
    Struct(StructSchema),
}

/// The shape of a struct: its name and its fields in wire order.
#[derive(Debug, PartialEq, Eq)]
pub struct StructSchema {
    pub name: String,
    pub fields: Vec<(String, Schema)>,
}

/// The mathematical model of a [`Schema`].
pub ghost enum SchemaView {
    Str,
    Sequence,
    Mapping,
    I8,
    U8,
    I16,
    U16,
    I32,
    U32,
    I64,
    U64,
    I128,
    U128,
    F32,
    F64,
    Bool,
    Char,
    Unit,
    Bytes,
    Option,
    ByteBuf,
    String,
    Struct { name: Seq<char>, fields: Seq<(Seq<char>, SchemaView)> },
}

/// The model of a field list: each name and each shape by its view.
pub open spec fn fields_view(fields: Seq<(String, Schema)>) -> Seq<(Seq<char>, SchemaView)>
    decreases fields,
{
    Seq::new(
        fields.len(),
        |i: int|
            if 0 <= i < fields.len() {
                (fields[i].0@, fields[i].1@)
            } else {
                (Seq::empty(), SchemaView::Unit)
            },
    )
}

impl View for Schema {
    type V = SchemaView;

    open spec fn view(&self) -> SchemaView
        decreases self,
    {
        match self {
            Schema::Str => SchemaView::Str,
            Schema::Sequence => SchemaView::Sequence,
            Schema::Mapping => SchemaView::Mapping,
            Schema::I8 => SchemaView::I8,
            Schema::U8 => SchemaView::U8,
            Schema::I16 => SchemaView::I16,
            Schema::U16 => SchemaView::U16,
            Schema::I32 => SchemaView::I32,
            Schema::U32 => SchemaView::U32,
            Schema::I64 => SchemaView::I64,
            Schema::U64 => SchemaView::U64,
            Schema::I128 => SchemaView::I128,
            Schema::U128 => SchemaView::U128,
            Schema::F32 => SchemaView::F32,
            Schema::F64 => SchemaView::F64,
            Schema::Bool => SchemaView::Bool,
            Schema::Char => SchemaView::Char,
            Schema::Unit => SchemaView::Unit,
            Schema::Bytes => SchemaView::Bytes,
            Schema::Option => SchemaView::Option,
            Schema::ByteBuf => SchemaView::ByteBuf,
            Schema::String => SchemaView::String,
            Schema::Struct(s) => SchemaView::Struct {
                name: s.name@,
                fields: fields_view(s.fields@),
            },
        }
    }
}

impl View for StructSchema {
    type V = SchemaView;

    open spec fn view(&self) -> SchemaView {
        SchemaView::Struct { name: self.name@, fields: fields_view(self.fields@) }
    }
}

/// A copy of a field list, field by field.
fn clone_fields(fields: &Vec<(String, Schema)>) -> (copy: Vec<(String, Schema)>)
    ensures
        fields_view(copy@) == fields_view(fields@),
    decreases fields,
{
    let mut copy: Vec<(String, Schema)> = Vec::new();
    let mut i: usize = 0;
    while i < fields.len()
        invariant
            i <= fields.len(),
            copy.len() == i,
            forall|j: int|
                0 <= j < i ==> (#[trigger] copy@[j]).0@ == fields@[j].0@ && copy@[j].1@
                    == fields@[j].1@,
        decreases fields.len() - i,
    {
        let field = &fields[i];
        copy.push((field.0.clone(), field.1.clone()));
        i += 1;
    }
    assert(fields_view(copy@) =~= fields_view(fields@));
    copy
}

impl Clone for Schema {
    fn clone(&self) -> (copy: Schema)
        ensures
            copy@ == self@,
        decreases self,
    {
        match self {
            Schema::Str => Schema::Str,
            Schema::Sequence => Schema::Sequence,
            Schema::Mapping => Schema::Mapping,
            Schema::I8 => Schema::I8,
            Schema::U8 => Schema::U8,
            Schema::I16 => Schema::I16,
            Schema::U16 => Schema::U16,
            Schema::I32 => Schema::I32,
            Schema::U32 => Schema::U32,
            Schema::I64 => Schema::I64,
            Schema::U64 => Schema::U64,
            Schema::I128 => Schema::I128,
            Schema::U128 => Schema::U128,
            Schema::F32 => Schema::F32,
            Schema::F64 => Schema::F64,
            Schema::Bool => Schema::Bool,
            Schema::Char => Schema::Char,
            Schema::Unit => Schema::Unit,
            Schema::Bytes => Schema::Bytes,
            Schema::Option => Schema::Option,
            Schema::ByteBuf => Schema::ByteBuf,
            Schema::String => Schema::String,
            Schema::Struct(s) => Schema::Struct(
                StructSchema { name: s.name.clone(), fields: clone_fields(&s.fields) },
            ),
        }
    }
}

impl Clone for StructSchema {
    fn clone(&self) -> (copy: StructSchema)
        ensures
            copy@ == self@,
    {
        StructSchema { name: self.name.clone(), fields: clone_fields(&self.fields) }
    }
}

impl StructSchema {
    /// A struct shape with the given name and fields, in wire order.
    pub fn new(name: String, fields: Vec<(String, Schema)>) -> (s: StructSchema)
        ensures
            s.name == name,
            s.fields == fields,
    {
        StructSchema { name, fields }
    }
}

} // verus!
