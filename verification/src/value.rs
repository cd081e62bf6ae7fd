use vstd::prelude::*;

verus! {

/// One node of the generic parsed tree: the format-agnostic nested structure
/// of scalars, ordered lists and insertion-ordered maps that the external
/// parser produces and that the schema interpreter consumes.
///
/// A floating-point scalar is carried as its IEEE 754 bit pattern so that the
/// interpreter itself never touches floats; a caller that wants the number
/// applies `f64::from_bits` to it.
#[derive(Debug, PartialEq)]
pub enum GmlValue {
    /// Unsigned integer scalar.
    Uint(u64),
    /// Signed integer scalar.
    Sint(i64),
    /// Floating-point scalar, stored as its IEEE 754 bit pattern.
    Float(u64),
    /// String scalar: a bare word or a quoted string.
    Str(String),
    /// Parenthesised ordered list.
    Tuple(Vec<GmlValue>),
    /// Bracketed ordered list.
    Array(Vec<GmlValue>),
    /// Map from keys to values, declaration order preserved.
    Dict(Vec<(GmlValue, GmlValue)>),
}

impl GmlValue {
    /// The unsigned integer held by this value, if it is one.
    pub fn get_uint(&self) -> (r: Option<u64>)
        ensures
            r == self.as_uint(),
    {
        match self {
            GmlValue::Uint(u) => Some(*u),
            _ => None,
        }
    }

    /// The value of an unsigned-integer scalar, in spec form.
    pub open spec fn as_uint(self) -> Option<u64> {
        match self {
            GmlValue::Uint(u) => Some(u),
            _ => None,
        }
    }

    /// The bit pattern held by a floating-point scalar, if this is one.
    pub fn get_float_bits(&self) -> (r: Option<u64>)
        ensures
            r == self.as_float_bits(),
    {
        match self {
            GmlValue::Float(b) => Some(*b),
            _ => None,
        }
    }

    /// The bit pattern of a floating-point scalar, in spec form.
    pub open spec fn as_float_bits(self) -> Option<u64> {
        match self {
            GmlValue::Float(b) => Some(b),
            _ => None,
        }
    }
}

} // verus!
