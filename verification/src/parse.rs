use crate::value::GmlValue;
use asexp::atom::Atom;
use asexp::token::{Token, Tokenizer};
use asexp::Sexp;
use vstd::prelude::*;

verus! {

/// The external parser's tree type, declared so that the conversion below
/// can take it; values of it stay opaque here and never reach verified logic.
#[verifier::external_type_specification]
#[verifier::external_body]
pub struct ExSexp(Sexp);

/// The generic parsed tree that the external tokenizer and tree parser
/// produce from a text, after the bracket rewrite below: `None` where they
/// reject the text.  The tree is a function of the text alone; this name
/// stands for it, and `parse_text` is the one place that computes it.
pub uninterp spec fn parsed_doc(s: Seq<char>) -> Option<GmlValue>;

/// Runs the external tokenizer and generic tree parser over the text and
/// converts their tree into the library's value type.
///
/// The closure is the token adapter of this notation: it rewrites the
/// source's square-bracket delimiters into the brace delimiters that make
/// the generic parser build a map, and passes every other token through
/// unchanged.  Relies on asexp's `Tokenizer` (which turns bad input into
/// error tokens rather than panicking), `CurlyAroundTokenizer` (the
/// document is parsed as if enclosed in braces) and `Sexp::parse_iter`
/// (which builds the tree or rejects the token stream).
#[verifier::external_body]
pub fn parse_text(s: &str) -> (r: Option<GmlValue>)
    ensures
        r == parsed_doc(s@),
{
    let tokens = Tokenizer::new(s, true).with_curly_around();
    let adapted = tokens.map(|t| match t {
        Token::OpenBracket => Token::OpenCurly,
        Token::CloseBracket => Token::CloseCurly,
        other => other,
    });
    match Sexp::parse_iter(adapted) {
        Ok(tree) => Some(from_sexp(tree)),
        Err(()) => None,
    }
}

/// Converts asexp's tree into the library's value type, variant for variant;
/// a floating-point atom becomes its IEEE 754 bit pattern.  Relies on
/// asexp's `Sexp` and `Atom` enums having exactly these cases.
#[verifier::external_body]
fn from_sexp(tree: Sexp) -> GmlValue {
    match tree {
        Sexp::Atom(Atom::Str(s)) => GmlValue::Str(s),
        Sexp::Atom(Atom::UInt(u)) => GmlValue::Uint(u),
        Sexp::Atom(Atom::SInt(i)) => GmlValue::Sint(i),
        Sexp::Atom(Atom::Float(f)) => GmlValue::Float(f.to_bits()),
        Sexp::Tuple(items) => GmlValue::Tuple(items.into_iter().map(from_sexp).collect()),
        Sexp::Array(items) => GmlValue::Array(items.into_iter().map(from_sexp).collect()),
        Sexp::Map(pairs) => GmlValue::Dict(
            pairs.into_iter().map(|(k, v)| (from_sexp(k), from_sexp(v))).collect(),
        ),
    }
}

} // verus!
