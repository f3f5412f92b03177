//! The shape recorder: from the requests that a type makes while it describes
//! itself to the schema of that type.
//!
//! A type describes itself by asking a receiver for values, one request per
//! value, in the order in which the values stand on the wire. A request for a
//! struct names the struct and its fields; the requests for the fields follow,
//! and an end mark closes the struct. The recorder never looks at a value: the
//! requests alone decide the schema.

use crate::error::RecorderError;
use crate::schema::{fields_view, Schema, SchemaView, StructSchema};
use vstd::prelude::*;

verus! {

/// The kinds of value that a type can ask its receiver for.
#[derive(Debug, Clone, Copy, PartialEq, Eq, Structural)]
pub enum Kind {
    Any,
    Bool,
    I8,
    I16,
    I32,
    I64,
    I128,
    U8,
    U16,
    U32,
    U64,
    U128,
    F32,
    F64,
    Char,
    Str,
    String,
    Bytes,
    ByteBuf,
    Option,
    Unit,
    UnitStruct,
    NewtypeStruct,
    Sequence,
    Tuple,
    TupleStruct,
    Mapping,
    Enum,
    Identifier,
    IgnoredAny,
}

/// One step of a type's description of itself.
#[derive(Debug, PartialEq, Eq)]
pub enum Request {
    /// The type asks for one value of a kind.
    Value(Kind),
    /// The type asks for a struct; the requests of its fields follow.
    Struct { name: String, fields: Vec<String> },
    /// The struct that was asked for last and is still open is complete.
    EndStruct,
}

/// The shape that a schema has for a kind, if it has one.
pub open spec fn kind_shape(kind: Kind) -> Option<SchemaView> {
    match kind {
        Kind::Bool => Some(SchemaView::Bool),
        Kind::I8 => Some(SchemaView::I8),
        Kind::I16 => Some(SchemaView::I16),
        Kind::I32 => Some(SchemaView::I32),
        Kind::I64 => Some(SchemaView::I64),
        Kind::I128 => Some(SchemaView::I128),
        Kind::U8 => Some(SchemaView::U8),
        Kind::U16 => Some(SchemaView::U16),
        Kind::U32 => Some(SchemaView::U32),
        Kind::U64 => Some(SchemaView::U64),
        Kind::U128 => Some(SchemaView::U128),
        Kind::F32 => Some(SchemaView::F32),
        Kind::F64 => Some(SchemaView::F64),
        Kind::Char => Some(SchemaView::Char),
        Kind::Str => Some(SchemaView::Str),
        Kind::String => Some(SchemaView::String),
        Kind::Bytes => Some(SchemaView::Bytes),
        Kind::ByteBuf => Some(SchemaView::ByteBuf),
        Kind::Option => Some(SchemaView::Option),
        Kind::Unit => Some(SchemaView::Unit),
        Kind::Sequence => Some(SchemaView::Sequence),
        Kind::Mapping => Some(SchemaView::Mapping),
        Kind::Any
        | Kind::UnitStruct
        | Kind::NewtypeStruct
        | Kind::Tuple
        | Kind::TupleStruct
        | Kind::Enum
        | Kind::Identifier
        | Kind::IgnoredAny => None,
    }
}

/// The name under which a kind is reported where no schema has a shape for
/// it.
pub open spec fn kind_name(kind: Kind) -> Seq<char> {
    match kind {
        Kind::Any => "any"@,
        Kind::UnitStruct => "unit struct"@,
        Kind::NewtypeStruct => "newtype struct"@,
        Kind::Tuple => "tuple"@,
        Kind::TupleStruct => "tuple struct"@,
        Kind::Enum => "enum"@,
        Kind::Identifier => "identifier"@,
        Kind::IgnoredAny => "ignored any"@,
        _ => "value"@,
    }
}

impl Kind {
    /// The shape that stands for a value of this kind in a schema. A kind
    /// that no schema can express is refused under its name.
    pub fn schema(self) -> (r: Result<Schema, RecorderError>)
        ensures
            match kind_shape(self) {
                Some(shape) => r is Ok && r->Ok_0@ == shape,
                None => r is Err && r->Err_0@ == kind_name(self),
            },
    {
        match self {
            Kind::Bool => Ok(Schema::Bool),
            Kind::I8 => Ok(Schema::I8),
            Kind::I16 => Ok(Schema::I16),
            Kind::I32 => Ok(Schema::I32),
            Kind::I64 => Ok(Schema::I64),
            Kind::I128 => Ok(Schema::I128),
            Kind::U8 => Ok(Schema::U8),
            Kind::U16 => Ok(Schema::U16),
            Kind::U32 => Ok(Schema::U32),
            Kind::U64 => Ok(Schema::U64),
            Kind::U128 => Ok(Schema::U128),
            Kind::F32 => Ok(Schema::F32),
            Kind::F64 => Ok(Schema::F64),
            Kind::Char => Ok(Schema::Char),
            Kind::Str => Ok(Schema::Str),
            Kind::String => Ok(Schema::String),
            Kind::Bytes => Ok(Schema::Bytes),
            Kind::ByteBuf => Ok(Schema::ByteBuf),
            Kind::Option => Ok(Schema::Option),
            Kind::Unit => Ok(Schema::Unit),
            Kind::Sequence => Ok(Schema::Sequence),
            Kind::Mapping => Ok(Schema::Mapping),
            Kind::Any => Err(RecorderError::Unsupported("any".to_owned())),
            Kind::UnitStruct => Err(RecorderError::Unsupported("unit struct".to_owned())),
            Kind::NewtypeStruct => Err(RecorderError::Unsupported("newtype struct".to_owned())),
            Kind::Tuple => Err(RecorderError::Unsupported("tuple".to_owned())),
            Kind::TupleStruct => Err(RecorderError::Unsupported("tuple struct".to_owned())),
            Kind::Enum => Err(RecorderError::Unsupported("enum".to_owned())),
            Kind::Identifier => Err(RecorderError::Unsupported("identifier".to_owned())),
            Kind::IgnoredAny => Err(RecorderError::Unsupported("ignored any".to_owned())),
        }
    }
}

/// The mathematical model of a [`Request`].
pub ghost enum RequestView {
    /// A value whose shape a schema can express.
    Shape(SchemaView),
    /// A value of a kind that no schema can express; the kind is named.
    Unsupported(Seq<char>),
    /// A struct begins.
    Open { name: Seq<char>, fields: Seq<Seq<char>> },
    /// The struct that is open ends.
    Close,
}

impl View for Request {
    type V = RequestView;

    open spec fn view(&self) -> RequestView {
        match self {
            Request::Value(kind) => match kind_shape(*kind) {
                Some(shape) => RequestView::Shape(shape),
                None => RequestView::Unsupported(kind_name(*kind)),
            },
            Request::Struct { name, fields } => RequestView::Open {
                name: name@,
                fields: fields@.map_values(|field: String| field@),
            },
            Request::EndStruct => RequestView::Close,
        }
    }
}

/// The model of a run of requests.
pub open spec fn requests_view(requests: Seq<Request>) -> Seq<RequestView> {
    requests.map_values(|request: Request| request@)
}

/// The shape that the requests from `at` on describe, and the position behind
/// it; or the name of the first kind among them that no schema can express.
///
/// One request for a value is one shape. A struct takes the requests up to
/// its end mark. Where nothing is asked for, nothing stands on the wire: the
/// shape is that of the unit.
pub open spec fn build(requests: Seq<RequestView>, at: nat) -> Result<(SchemaView, nat), Seq<char>>
    decreases requests.len() - at, 0nat,
{
    if at >= requests.len() {
        Ok((SchemaView::Unit, at))
    } else {
        match requests[at as int] {
            RequestView::Shape(shape) => Ok((shape, at + 1)),
            RequestView::Unsupported(kind) => Err(kind),
            RequestView::Close => Ok((SchemaView::Unit, at)),
            RequestView::Open { name, fields } => named(
                name,
                build_fields(requests, at + 1, fields, Seq::empty()),
            ),
        }
    }
}

/// The struct of the given name that holds the fields that were recorded.
pub open spec fn named(
    name: Seq<char>,
    recorded: Result<(Seq<(Seq<char>, SchemaView)>, nat), Seq<char>>,
) -> Result<(SchemaView, nat), Seq<char>> {
    match recorded {
        Err(kind) => Err(kind),
        Ok((fields, next)) => Ok((SchemaView::Struct { name, fields }, next)),
    }
}

/// The fields of an open struct: the shapes that the requests from `at` on
/// describe, up to the end mark, each under the next of `names`, added to
/// `done` in the order of the requests; and the position behind the end mark.
/// A struct that the requests leave open ends with them. A shape for which no
/// name is left is passed over.
pub open spec fn build_fields(
    requests: Seq<RequestView>,
    at: nat,
    names: Seq<Seq<char>>,
    done: Seq<(Seq<char>, SchemaView)>,
) -> Result<(Seq<(Seq<char>, SchemaView)>, nat), Seq<char>>
    decreases requests.len() - at, 1nat,
{
    if at >= requests.len() {
        Ok((done, at))
    } else if requests[at as int] is Close {
        Ok((done, at + 1))
    } else {
        match build(requests, at) {
            Err(kind) => Err(kind),
            Ok((shape, next)) => if at < next <= requests.len() {
                build_fields(
                    requests,
                    next,
                    names,
                    if done.len() < names.len() {
                        done.push((names[done.len() as int], shape))
                    } else {
                        done
                    },
                )
            } else {
                Ok((done, at))
            },
        }
    }
}

/// Whether a request is the end mark of a struct.
fn is_end(request: &Request) -> (b: bool)
    ensures
        b == (request@ is Close),
{
    match request {
        Request::EndStruct => true,
        _ => false,
    }
}

/// Records the shape that the requests from `at` on describe.
fn record_at(requests: &Vec<Request>, at: usize) -> (r: Result<(Schema, usize), RecorderError>)
    requires
        at <= requests@.len(),
    ensures
        match build(requests_view(requests@), at as nat) {
            Ok((shape, next)) => r is Ok && r->Ok_0.0@ == shape && r->Ok_0.1 == next && at <= next
                <= requests@.len(),
            Err(kind) => r is Err && r->Err_0@ == kind,
        },
        r is Ok && at < requests@.len() && !(requests@[at as int]@ is Close) ==> at < r->Ok_0.1,
    decreases requests@.len() - at, 0nat,
{
    assert(requests_view(requests@).len() == requests@.len());
    if at >= requests.len() {
        return Ok((Schema::Unit, at));
    }
    match &requests[at] {
        Request::Value(kind) => match kind.schema() {
            Ok(shape) => Ok((shape, at + 1)),
            Err(e) => Err(e),
        },
        Request::EndStruct => Ok((Schema::Unit, at)),
        Request::Struct { name, fields } => {
            let ghost model = requests_view(requests@);
            let ghost names = fields@.map_values(|field: String| field@);
            let mut done: Vec<(String, Schema)> = Vec::new();
            let mut pos: usize = at + 1;
            assert(fields_view(done@) =~= Seq::empty());
            assert(model[at as int] == requests@[at as int]@);
            while pos < requests.len() && !is_end(&requests[pos])
                invariant
                    at < pos <= requests@.len(),
                    model == requests_view(requests@),
                    names == fields@.map_values(|field: String| field@),
                    build(model, at as nat) == named(
                        name@,
                        build_fields(model, pos as nat, names, fields_view(done@)),
                    ),
                decreases requests@.len() - pos,
            {
                let ghost before = fields_view(done@);
                assert(model[pos as int] == requests@[pos as int]@);
                match record_at(requests, pos) {
                    Err(e) => {
                        return Err(e);
                    },
                    Ok((shape, next)) => {
                        if done.len() < fields.len() {
                            let field = fields[done.len()].clone();
                            done.push((field, shape));
                            assert(fields_view(done@) =~= before.push(
                                (names[before.len() as int], shape@),
                            ));
                        }
                        pos = next;
                    },
                }
            }
            assert(pos < requests@.len() ==> model[pos as int] == requests@[pos as int]@);
            let next: usize = if pos < requests.len() {
                pos + 1
            } else {
                pos
            };
            Ok((Schema::Struct(StructSchema { name: name.clone(), fields: done }), next))
        },
    }
}

/// Records the schema of a type from the requests that it made while it
/// described itself, in the order in which it made them.
///
/// The call fails exactly where the type asks for a kind that no schema can
/// express before its shape is complete, and names the first such kind. Else
/// it yields the shape that [`build`] gives for the requests: one request for
/// a value is its shape, and a struct holds the shapes of its fields under
/// their names, in the order in which they were asked for.
pub fn record_schema(requests: &Vec<Request>) -> (r: Result<Schema, RecorderError>)
    ensures
        match build(requests_view(requests@), 0) {
            Ok((shape, next)) => r is Ok && r->Ok_0@ == shape,
            Err(kind) => r is Err && r->Err_0@ == kind,
        },
{
    match record_at(requests, 0) {
        Ok((shape, next)) => Ok(shape),
        Err(e) => Err(e),
    }
}

/// The requests that a type of the given shape makes while it describes
/// itself: one request for a value, and for a struct the request that opens
/// it, the requests of its fields in order, and the end mark.
pub open spec fn description(schema: SchemaView) -> Seq<RequestView>
    decreases schema, 0nat,
{
    match schema {
        SchemaView::Struct { name, fields } => seq![
            RequestView::Open { name, fields: fields.map_values(|f: (Seq<char>, SchemaView)| f.0) },
        ] + fields_description(fields, 0) + seq![RequestView::Close],
        _ => seq![RequestView::Shape(schema)],
    }
}

/// The requests of the fields from the `from`-th on, one after another.
pub open spec fn fields_description(fields: Seq<(Seq<char>, SchemaView)>, from: nat) -> Seq<
    RequestView,
>
    decreases fields, fields.len() - from,
{
    if from >= fields.len() {
        Seq::empty()
    } else {
        description(fields[from as int].1) + fields_description(fields, from + 1)
    }
}

/// Whether the requests `part` stand among `requests` at `at`.
pub open spec fn asked_at(requests: Seq<RequestView>, at: nat, part: Seq<RequestView>) -> bool {
    at + part.len() <= requests.len() && requests.subrange(at as int, (at + part.len()) as int)
        == part
}

/// Where two runs of requests stand one after the other, each stands at its
/// place.
pub proof fn lemma_asked_split(
    requests: Seq<RequestView>,
    at: nat,
    first: Seq<RequestView>,
    second: Seq<RequestView>,
)
    requires
        asked_at(requests, at, first + second),
    ensures
        asked_at(requests, at, first),
        asked_at(requests, at + first.len(), second),
{
    let both = first + second;
    let whole = requests.subrange(at as int, (at + both.len()) as int);
    assert(requests.subrange(at as int, (at + first.len()) as int) =~= first) by {
        assert forall|i: int| 0 <= i < first.len() implies requests[at + i] == first[i] by {
            assert(whole[i] == both[i]);
        }
    }
    assert(requests.subrange((at + first.len()) as int, (at + first.len() + second.len()) as int)
        =~= second) by {
        assert forall|i: int| 0 <= i < second.len() implies requests[at + first.len() + i]
            == second[i] by {
            assert(whole[first.len() + i] == both[first.len() + i]);
        }
    }
}

/// Recording replays a description: where the requests of a type of some
/// shape stand among the requests, the recorder finds that shape there, with
/// the names, the kinds and the order of the description, and goes on behind
/// it.
pub proof fn lemma_records_description(schema: SchemaView, requests: Seq<RequestView>, at: nat)
    requires
        asked_at(requests, at, description(schema)),
    ensures
        build(requests, at) == Ok::<(SchemaView, nat), Seq<char>>(
            (schema, at + description(schema).len()),
        ),
    decreases schema, 0nat,
{
    let asked = description(schema);
    assert(requests[at as int] == requests.subrange(at as int, (at + asked.len()) as int)[0]);
    match schema {
        SchemaView::Struct { name, fields } => {
            let names = fields.map_values(|f: (Seq<char>, SchemaView)| f.0);
            let open = seq![RequestView::Open { name, fields: names }];
            let inner = fields_description(fields, 0) + seq![RequestView::Close];
            assert(asked =~= open + inner);
            lemma_asked_split(requests, at, open, inner);
            assert(fields.subrange(0, 0) =~= Seq::empty());
            lemma_records_fields(fields, requests, at + 1, 0);
        },
        _ => {},
    }
}

/// The fields from the `from`-th on are recorded after those before them, up
/// to the end mark.
pub proof fn lemma_records_fields(
    fields: Seq<(Seq<char>, SchemaView)>,
    requests: Seq<RequestView>,
    at: nat,
    from: nat,
)
    requires
        from <= fields.len(),
        asked_at(requests, at, fields_description(fields, from) + seq![RequestView::Close]),
    ensures
        build_fields(
            requests,
            at,
            fields.map_values(|f: (Seq<char>, SchemaView)| f.0),
            fields.subrange(0, from as int),
        ) == Ok::<(Seq<(Seq<char>, SchemaView)>, nat), Seq<char>>(
            (fields, at + fields_description(fields, from).len() + 1),
        ),
    decreases fields, fields.len() - from,
{
    let names = fields.map_values(|f: (Seq<char>, SchemaView)| f.0);
    let asked = fields_description(fields, from) + seq![RequestView::Close];
    assert(requests[at as int] == requests.subrange(at as int, (at + asked.len()) as int)[0]);
    if from >= fields.len() {
        assert(fields.subrange(0, from as int) =~= fields);
    } else {
        let shape = fields[from as int].1;
        let first = description(shape);
        let rest = fields_description(fields, from + 1) + seq![RequestView::Close];
        assert(asked =~= first + rest);
        assert(!(first[0] is Close));
        lemma_asked_split(requests, at, first, rest);
        lemma_records_description(shape, requests, at);
        assert(fields.subrange(0, from as int).push((names[from as int], shape))
            =~= fields.subrange(0, (from + 1) as int));
        lemma_records_fields(fields, requests, at + first.len(), from + 1);
    }
}

/// Recording depends on nothing but the requests: two runs of requests that
/// are the same request by request record the same schema, or fail alike.
pub proof fn lemma_recording_determined(first: Seq<Request>, second: Seq<Request>)
    requires
        first.len() == second.len(),
        forall|i: int| 0 <= i < first.len() ==> first[i]@ == second[i]@,
    ensures
        build(requests_view(first), 0) == build(requests_view(second), 0),
{
    assert(requests_view(first) =~= requests_view(second));
}

} // verus!
