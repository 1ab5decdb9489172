//! Dynamic values: data that carries its own shape.

use vstd::prelude::*;

verus! {

/// A dynamic value.
///
/// Floating-point values are held by their IEEE 754 bit patterns.
#[derive(Debug, PartialEq, Eq)]
pub enum Val {
    Bool(bool),
    S8(i8),
    U8(u8),
    S16(i16),
    U16(u16),
    S32(i32),
    U32(u32),
    S64(i64),
    U64(u64),
    /// A single-precision number, by its bits.
    Float32(u32),
    /// A double-precision number, by its bits.
    Float64(u64),
    Char(char),
    String(String),
    List(Vec<Val>),
    /// Named fields, in declaration order.
    Record(Vec<(String, Val)>),
    Tuple(Vec<Val>),
    /// The active case and its payload, if the case has one.
    Variant(String, Option<Box<Val>>),
    /// The active case.
    Enum(String),
    Option(Option<Box<Val>>),
    /// Success or failure, each with its payload, if it has one.
    Result(Result<Option<Box<Val>>, Option<Box<Val>>>),
    /// The names of the active flags, in declaration order.
    Flags(Vec<String>),
    /// An opaque handle owned by the host.
    Resource(u32),
}

/// The mathematical model of a [`Val`].
pub enum ValView {
    Bool(bool),
    S8(i8),
    U8(u8),
    S16(i16),
    U16(u16),
    S32(i32),
    U32(u32),
    S64(i64),
    U64(u64),
    Float32(u32),
    Float64(u64),
    Char(char),
    String(Seq<char>),
    List(Seq<ValView>),
    Record(Seq<(Seq<char>, ValView)>),
    Tuple(Seq<ValView>),
    Variant(Seq<char>, Option<Box<ValView>>),
    Enum(Seq<char>),
    Option(Option<Box<ValView>>),
    Result(Result<Option<Box<ValView>>, Option<Box<ValView>>>),
    Flags(Seq<Seq<char>>),
    Resource(u32),
}

/// The models of a vector of values.
pub open spec fn vals_view(vals: Vec<Val>) -> Seq<ValView> {
    Seq::new(vals.len() as nat, |i: int| vals[i].model())
}

/// The models of a vector of named values.
pub open spec fn fields_view(fields: Vec<(String, Val)>) -> Seq<(Seq<char>, ValView)> {
    Seq::new(fields.len() as nat, |i: int| (fields[i].0@, fields[i].1.model()))
}

impl Val {
    /// The model of this value.
    pub open spec fn model(self) -> ValView
        decreases self,
    {
        match self {
            Val::Bool(v) => ValView::Bool(v),
            Val::S8(v) => ValView::S8(v),
            Val::U8(v) => ValView::U8(v),
            Val::S16(v) => ValView::S16(v),
            Val::U16(v) => ValView::U16(v),
            Val::S32(v) => ValView::S32(v),
            Val::U32(v) => ValView::U32(v),
            Val::S64(v) => ValView::S64(v),
            Val::U64(v) => ValView::U64(v),
            Val::Float32(bits) => ValView::Float32(bits),
            Val::Float64(bits) => ValView::Float64(bits),
            Val::Char(c) => ValView::Char(c),
            Val::String(s) => ValView::String(s@),
            Val::List(vals) => ValView::List(
                Seq::new(
                    vals.len() as nat,
                    |i: int|
                        if 0 <= i < vals.len() {
                            vals[i].model()
                        } else {
                            arbitrary()
                        },
                ),
            ),
            Val::Record(fields) => ValView::Record(
                Seq::new(
                    fields.len() as nat,
                    |i: int|
                        if 0 <= i < fields.len() {
                            (fields[i].0@, fields[i].1.model())
                        } else {
                            arbitrary()
                        },
                ),
            ),
            Val::Tuple(vals) => ValView::Tuple(
                Seq::new(
                    vals.len() as nat,
                    |i: int|
                        if 0 <= i < vals.len() {
                            vals[i].model()
                        } else {
                            arbitrary()
                        },
                ),
            ),
            Val::Variant(name, payload) => ValView::Variant(
                name@,
                match payload {
                    Some(v) => Some(Box::new((*v).model())),
                    None => None,
                },
            ),
            Val::Enum(name) => ValView::Enum(name@),
            Val::Option(payload) => ValView::Option(
                match payload {
                    Some(v) => Some(Box::new((*v).model())),
                    None => None,
                },
            ),
            Val::Result(Ok(payload)) => ValView::Result(
                Ok(
                    match payload {
                        Some(v) => Some(Box::new((*v).model())),
                        None => None,
                    },
                ),
            ),
            Val::Result(Err(payload)) => ValView::Result(
                Err(
                    match payload {
                        Some(v) => Some(Box::new((*v).model())),
                        None => None,
                    },
                ),
            ),
            Val::Flags(names) => ValView::Flags(Seq::new(names.len() as nat, |i: int| names[i]@)),
            Val::Resource(handle) => ValView::Resource(handle),
        }
    }
}

impl View for Val {
    type V = ValView;

    open spec fn view(&self) -> ValView {
        self.model()
    }
}

/// The model of a list value is the sequence of its elements' models.
pub proof fn lemma_list_view(vals: Vec<Val>)
    ensures
        Val::List(vals)@ == ValView::List(vals_view(vals)),
{
    assert(Val::List(vals)@->List_0 =~= vals_view(vals));
}

/// The model of a tuple value is the sequence of its elements' models.
pub proof fn lemma_tuple_view(vals: Vec<Val>)
    ensures
        Val::Tuple(vals)@ == ValView::Tuple(vals_view(vals)),
{
    assert(Val::Tuple(vals)@->Tuple_0 =~= vals_view(vals));
}

/// The model of a record value is the sequence of its fields' models.
pub proof fn lemma_record_view(fields: Vec<(String, Val)>)
    ensures
        Val::Record(fields)@ == ValView::Record(fields_view(fields)),
{
    assert(Val::Record(fields)@->Record_0 =~= fields_view(fields));
}

} // verus!
