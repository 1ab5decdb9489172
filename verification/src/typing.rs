//! When a value is of a type.

use vstd::prelude::*;
use crate::decode::among;
use crate::float::{canonical32, canonical64};
use crate::sequence::position;
use crate::types::{case_names, TypeView};
use crate::val::ValView;

verus! {

impl ValView {
    /// Whether this value holds a resource, at any depth.
    pub open spec fn holds_resource(self) -> bool
        decreases self,
    {
        match self {
            ValView::Resource(_) => true,
            ValView::List(vals) => exists|i: int|
                0 <= i < vals.len() && (#[trigger] vals[i]).holds_resource(),
            ValView::Tuple(vals) => exists|i: int|
                0 <= i < vals.len() && (#[trigger] vals[i]).holds_resource(),
            ValView::Record(fields) => exists|i: int|
                0 <= i < fields.len() && (#[trigger] fields[i]).1.holds_resource(),
            ValView::Variant(_, Some(p)) => p.holds_resource(),
            ValView::Option(Some(v)) => v.holds_resource(),
            ValView::Result(Ok(Some(p))) => p.holds_resource(),
            ValView::Result(Err(Some(p))) => p.holds_resource(),
            _ => false,
        }
    }

    /// Whether this value is of type `ty`.
    ///
    /// A record holds the type's fields under their names, in declaration
    /// order. A variant's case is one of the type's, with a payload exactly
    /// where the case has a payload type. The active flags are declared
    /// flags, in declaration order, each once. A floating-point value holds
    /// no NaN but the quiet one without payload.
    pub open spec fn has_type(self, ty: TypeView) -> bool
        decreases self,
    {
        match self {
            ValView::Bool(_) => ty is Bool,
            ValView::S8(_) => ty is S8,
            ValView::U8(_) => ty is U8,
            ValView::S16(_) => ty is S16,
            ValView::U16(_) => ty is U16,
            ValView::S32(_) => ty is S32,
            ValView::U32(_) => ty is U32,
            ValView::S64(_) => ty is S64,
            ValView::U64(_) => ty is U64,
            ValView::Float32(bits) => ty is Float32 && canonical32(bits) == bits,
            ValView::Float64(bits) => ty is Float64 && canonical64(bits) == bits,
            ValView::Char(_) => ty is Char,
            ValView::String(_) => ty is String,
            ValView::List(vals) => match ty {
                TypeView::List(t) => forall|i: int|
                    0 <= i < vals.len() ==> (#[trigger] vals[i]).has_type(*t),
                _ => false,
            },
            ValView::Record(fields) => match ty {
                TypeView::Record(types) => {
                    &&& fields.len() == types.len()
                    &&& forall|i: int|
                        0 <= i < fields.len() ==> (#[trigger] fields[i]).0 == types[i].0
                            && fields[i].1.has_type(types[i].1)
                },
                _ => false,
            },
            ValView::Tuple(vals) => match ty {
                TypeView::Tuple(types) => {
                    &&& vals.len() == types.len()
                    &&& forall|i: int|
                        0 <= i < vals.len() ==> (#[trigger] vals[i]).has_type(types[i])
                },
                _ => false,
            },
            ValView::Variant(name, payload) => match ty {
                TypeView::Variant(cases) => match position(case_names(cases), name) {
                    Some(k) => match payload {
                        Some(p) => match cases[k].1 {
                            Some(t) => p.has_type(t),
                            None => false,
                        },
                        None => cases[k].1 is None,
                    },
                    None => false,
                },
                _ => false,
            },
            ValView::Enum(name) => match ty {
                TypeView::Enum(cases) => cases.contains(name),
                _ => false,
            },
            ValView::Option(inner) => match ty {
                TypeView::Option(t) => match inner {
                    Some(v) => v.has_type(*t),
                    None => true,
                },
                _ => false,
            },
            ValView::Result(Ok(payload)) => match ty {
                TypeView::Result(ok, _) => match payload {
                    Some(p) => match ok {
                        Some(t) => p.has_type(*t),
                        None => false,
                    },
                    None => ok is None,
                },
                _ => false,
            },
            ValView::Result(Err(payload)) => match ty {
                TypeView::Result(_, err) => match payload {
                    Some(p) => match err {
                        Some(t) => p.has_type(*t),
                        None => false,
                    },
                    None => err is None,
                },
                _ => false,
            },
            ValView::Flags(names) => match ty {
                TypeView::Flags(declared) => names == declared.filter(among(names)),
                _ => false,
            },
            ValView::Resource(_) => ty is Resource,
        }
    }
}

} // verus!
