//! Type descriptors: the shape that a dynamic value must have.

use vstd::prelude::*;

verus! {

/// A recursive description of a value's shape.
#[derive(Debug, PartialEq, Eq)]
pub enum Type {
    Bool,
    S8,
    U8,
    S16,
    U16,
    S32,
    U32,
    S64,
    U64,
    Float32,
    Float64,
    Char,
    String,
    /// A list whose elements all have one type.
    List(Box<Type>),
    /// Named fields, in declaration order.
    Record(Vec<(String, Type)>),
    /// Positional elements.
    Tuple(Vec<Type>),
    /// Named cases, each with or without a payload.
    Variant(Vec<(String, Option<Type>)>),
    /// Named cases without payloads.
    Enum(Vec<String>),
    Option(Box<Type>),
    /// The payload types of the success and of the failure case.
    Result(Option<Box<Type>>, Option<Box<Type>>),
    /// Flag names, in declaration order.
    Flags(Vec<String>),
    /// An opaque handle owned by the host.
    Resource,
}

/// The mathematical model of a [`Type`].
pub enum TypeView {
    Bool,
    S8,
    U8,
    S16,
    U16,
    S32,
    U32,
    S64,
    U64,
    Float32,
    Float64,
    Char,
    String,
    List(Box<TypeView>),
    Record(Seq<(Seq<char>, TypeView)>),
    Tuple(Seq<TypeView>),
    Variant(Seq<(Seq<char>, Option<TypeView>)>),
    Enum(Seq<Seq<char>>),
    Option(Box<TypeView>),
    Result(Option<Box<TypeView>>, Option<Box<TypeView>>),
    Flags(Seq<Seq<char>>),
    Resource,
}

/// The kind of a type descriptor, without what it holds; `Unit` stands for
/// the absent payload of a case.
#[derive(Debug, Clone, Copy, PartialEq, Eq, Structural)]
pub enum Kind {
    Bool,
    S8,
    U8,
    S16,
    U16,
    S32,
    U32,
    S64,
    U64,
    Float32,
    Float64,
    Char,
    String,
    List,
    Record,
    Tuple,
    Variant,
    Enum,
    Option,
    Result,
    Flags,
    Resource,
    Unit,
}

/// The views of a vector of names.
pub open spec fn names_view(names: Vec<String>) -> Seq<Seq<char>> {
    Seq::new(names.len() as nat, |i: int| names[i]@)
}

/// The model of an optional payload type.
pub open spec fn payload_type_view(payload: Option<Type>) -> Option<TypeView> {
    match payload {
        Some(t) => Some(t.model()),
        None => None,
    }
}

/// The models of a record's fields.
pub open spec fn record_fields_view(fields: Vec<(String, Type)>) -> Seq<(Seq<char>, TypeView)> {
    Seq::new(fields.len() as nat, |i: int| (fields[i].0@, fields[i].1.model()))
}

/// The models of a tuple's element types.
pub open spec fn tuple_types_view(types: Vec<Type>) -> Seq<TypeView> {
    Seq::new(types.len() as nat, |i: int| types[i].model())
}

/// The models of a variant's cases.
pub open spec fn cases_view(cases: Vec<(String, Option<Type>)>) -> Seq<
    (Seq<char>, Option<TypeView>),
> {
    Seq::new(cases.len() as nat, |i: int| (cases[i].0@, payload_type_view(cases[i].1)))
}

impl Type {
    /// The model of this descriptor: names become sequences of characters,
    /// vectors become sequences.
    pub open spec fn model(self) -> TypeView
        decreases self,
    {
        match self {
            Type::Bool => TypeView::Bool,
            Type::S8 => TypeView::S8,
            Type::U8 => TypeView::U8,
            Type::S16 => TypeView::S16,
            Type::U16 => TypeView::U16,
            Type::S32 => TypeView::S32,
            Type::U32 => TypeView::U32,
            Type::S64 => TypeView::S64,
            Type::U64 => TypeView::U64,
            Type::Float32 => TypeView::Float32,
            Type::Float64 => TypeView::Float64,
            Type::Char => TypeView::Char,
            Type::String => TypeView::String,
            Type::List(t) => TypeView::List(Box::new((*t).model())),
            Type::Record(fields) => TypeView::Record(
                Seq::new(
                    fields.len() as nat,
                    |i: int|
                        if 0 <= i < fields.len() {
                            (fields[i].0@, fields[i].1.model())
                        } else {
                            arbitrary()
                        },
                ),
            ),
            Type::Tuple(types) => TypeView::Tuple(
                Seq::new(
                    types.len() as nat,
                    |i: int|
                        if 0 <= i < types.len() {
                            types[i].model()
                        } else {
                            arbitrary()
                        },
                ),
            ),
            Type::Variant(cases) => TypeView::Variant(
                Seq::new(
                    cases.len() as nat,
                    |i: int|
                        if 0 <= i < cases.len() {
                            (
                                cases[i].0@,
                                match cases[i].1 {
                                    Some(t) => Some(t.model()),
                                    None => None,
                                },
                            )
                        } else {
                            arbitrary()
                        },
                ),
            ),
            Type::Enum(names) => TypeView::Enum(names_view(names)),
            Type::Option(t) => TypeView::Option(Box::new((*t).model())),
            Type::Result(ok, err) => TypeView::Result(
                match ok {
                    Some(t) => Some(Box::new((*t).model())),
                    None => None,
                },
                match err {
                    Some(t) => Some(Box::new((*t).model())),
                    None => None,
                },
            ),
            Type::Flags(names) => TypeView::Flags(names_view(names)),
            Type::Resource => TypeView::Resource,
        }
    }

    /// The kind of this descriptor.
    pub fn kind(&self) -> (k: Kind)
        ensures
            k == self@.kind(),
    {
        match self {
            Type::Bool => Kind::Bool,
            Type::S8 => Kind::S8,
            Type::U8 => Kind::U8,
            Type::S16 => Kind::S16,
            Type::U16 => Kind::U16,
            Type::S32 => Kind::S32,
            Type::U32 => Kind::U32,
            Type::S64 => Kind::S64,
            Type::U64 => Kind::U64,
            Type::Float32 => Kind::Float32,
            Type::Float64 => Kind::Float64,
            Type::Char => Kind::Char,
            Type::String => Kind::String,
            Type::List(_) => Kind::List,
            Type::Record(_) => Kind::Record,
            Type::Tuple(_) => Kind::Tuple,
            Type::Variant(_) => Kind::Variant,
            Type::Enum(_) => Kind::Enum,
            Type::Option(_) => Kind::Option,
            Type::Result(_, _) => Kind::Result,
            Type::Flags(_) => Kind::Flags,
            Type::Resource => Kind::Resource,
        }
    }
}

impl View for Type {
    type V = TypeView;

    open spec fn view(&self) -> TypeView {
        self.model()
    }
}

/// The model of a record type is the sequence of its fields' models.
pub proof fn lemma_record_type_view(fields: Vec<(String, Type)>)
    ensures
        Type::Record(fields)@ == TypeView::Record(record_fields_view(fields)),
{
    assert(Type::Record(fields)@->Record_0 =~= record_fields_view(fields));
}

/// The model of a tuple type is the sequence of its element types' models.
pub proof fn lemma_tuple_type_view(types: Vec<Type>)
    ensures
        Type::Tuple(types)@ == TypeView::Tuple(tuple_types_view(types)),
{
    assert(Type::Tuple(types)@->Tuple_0 =~= tuple_types_view(types));
}

/// The model of a variant type is the sequence of its cases' models.
pub proof fn lemma_variant_type_view(cases: Vec<(String, Option<Type>)>)
    ensures
        Type::Variant(cases)@ == TypeView::Variant(cases_view(cases)),
{
    assert(Type::Variant(cases)@->Variant_0 =~= cases_view(cases));
}

/// Whether no name occurs twice in `names`.
pub open spec fn distinct(names: Seq<Seq<char>>) -> bool {
    forall|i: int, j: int| 0 <= i < j < names.len() ==> names[i] != names[j]
}

/// The names of a record's fields, in declaration order.
pub open spec fn field_names(fields: Seq<(Seq<char>, TypeView)>) -> Seq<Seq<char>> {
    Seq::new(fields.len(), |i: int| fields[i].0)
}

/// The names of a variant's cases, in declaration order.
pub open spec fn case_names(cases: Seq<(Seq<char>, Option<TypeView>)>) -> Seq<Seq<char>> {
    Seq::new(cases.len(), |i: int| cases[i].0)
}

impl TypeView {
    /// The kind of this descriptor.
    pub open spec fn kind(self) -> Kind {
        match self {
            TypeView::Bool => Kind::Bool,
            TypeView::S8 => Kind::S8,
            TypeView::U8 => Kind::U8,
            TypeView::S16 => Kind::S16,
            TypeView::U16 => Kind::U16,
            TypeView::S32 => Kind::S32,
            TypeView::U32 => Kind::U32,
            TypeView::S64 => Kind::S64,
            TypeView::U64 => Kind::U64,
            TypeView::Float32 => Kind::Float32,
            TypeView::Float64 => Kind::Float64,
            TypeView::Char => Kind::Char,
            TypeView::String => Kind::String,
            TypeView::List(_) => Kind::List,
            TypeView::Record(_) => Kind::Record,
            TypeView::Tuple(_) => Kind::Tuple,
            TypeView::Variant(_) => Kind::Variant,
            TypeView::Enum(_) => Kind::Enum,
            TypeView::Option(_) => Kind::Option,
            TypeView::Result(_, _) => Kind::Result,
            TypeView::Flags(_) => Kind::Flags,
            TypeView::Resource => Kind::Resource,
        }
    }

    /// Whether every name list in this descriptor, at any depth, is free of
    /// repetitions: the fields of a record, the cases of a variant or of an
    /// enum, the names of flags.
    pub open spec fn well_formed(self) -> bool
        decreases self,
    {
        match self {
            TypeView::List(t) => t.well_formed(),
            TypeView::Record(fields) => {
                &&& distinct(field_names(fields))
                &&& forall|i: int| 0 <= i < fields.len() ==> (#[trigger] fields[i]).1.well_formed()
            },
            TypeView::Tuple(types) => forall|i: int|
                0 <= i < types.len() ==> (#[trigger] types[i]).well_formed(),
            TypeView::Variant(cases) => {
                &&& distinct(case_names(cases))
                &&& forall|i: int|
                    0 <= i < cases.len() ==> match (#[trigger] cases[i]).1 {
                        Some(t) => t.well_formed(),
                        None => true,
                    }
            },
            TypeView::Enum(names) => distinct(names),
            TypeView::Option(t) => t.well_formed(),
            TypeView::Result(ok, err) => {
                &&& match ok {
                    Some(t) => t.well_formed(),
                    None => true,
                }
                &&& match err {
                    Some(t) => t.well_formed(),
                    None => true,
                }
            },
            TypeView::Flags(names) => distinct(names),
            _ => true,
        }
    }
}

} // verus!
