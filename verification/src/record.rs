use crate::error::GmlError;
use crate::semantics::{field_of, has_key, record_fields_from, record_of, uint_field};
use crate::value::GmlValue;
use vstd::prelude::*;

verus! {

/// Relies on `str`'s equality: two string slices compare equal exactly when
/// they hold the same characters.
#[verifier::external_body]
pub fn str_eq(a: &str, b: &str) -> (r: bool)
    ensures
        r == (a@ == b@),
{
    a == b
}

/// The fields of an accepted record, as the spec sees them: each key as its
/// character sequence, values unchanged, order kept.
pub open spec fn fields_view(fields: Seq<(String, GmlValue)>) -> Seq<(Seq<char>, GmlValue)> {
    fields.map_values(|p: (String, GmlValue)| (p.0@, p.1))
}

/// Whether one of `fields` has `key`.
fn fields_have_key(fields: &Vec<(String, GmlValue)>, key: &str) -> (r: bool)
    ensures
        r == has_key(fields_view(fields@), key@),
{
    let mut i: usize = 0;
    while i < fields.len()
        invariant
            0 <= i <= fields@.len(),
            forall|j: int| 0 <= j < i ==> (#[trigger] fields_view(fields@)[j]).0 != key@,
        decreases fields@.len() - i,
    {
        if str_eq(fields[i].0.as_str(), key) {
            assert(fields_view(fields@)[i as int].0 == key@);
            return true;
        }
        i += 1;
    }
    false
}

/// Coerces a map value into its record fields, or reports why it is no
/// record: not a map, a repeated key, or a key that is no string.
#[verifier::loop_isolation(false)]
pub fn into_record(v: GmlValue) -> (r: Result<Vec<(String, GmlValue)>, GmlError>)
    ensures
        match r {
            Ok(fields) => record_of(v) == Ok::<_, GmlError>(fields_view(fields@)),
            Err(e) => record_of(v) == Err::<Seq<(Seq<char>, GmlValue)>, _>(e),
        },
{
    let ghost v0 = v;
    match v {
        GmlValue::Dict(mut pairs) => {
            let mut fields: Vec<(String, GmlValue)> = Vec::new();
            proof {
                assert(fields_view(fields@) =~= Seq::<(Seq<char>, GmlValue)>::empty());
            }
            while pairs.len() > 0
                invariant
                    record_of(v0) == record_fields_from(pairs@, fields_view(fields@)),
                decreases pairs@.len(),
            {
                let ghost prev = pairs@;
                let ghost acc = fields_view(fields@);
                let (key, val) = pairs.remove(0);
                proof {
                    assert(pairs@ =~= prev.subrange(1, prev.len() as int));
                    assert(prev[0] == (key, val));
                }
                match key {
                    GmlValue::Str(s) => {
                        if fields_have_key(&fields, s.as_str()) {
                            proof {
                                assert(prev[0].0 == GmlValue::Str(s));
                                assert(record_fields_from(prev, acc) == Err::<
                                    Seq<(Seq<char>, GmlValue)>,
                                    _,
                                >(GmlError::DuplicateKey));
                                assert(record_of(v0) == record_fields_from(prev, acc));
                            }
                            return Err(GmlError::DuplicateKey);
                        }
                        fields.push((s, val));
                        proof {
                            assert(fields_view(fields@) =~= acc.push((s@, val)));
                        }
                    },
                    _ => {
                        proof {
                            assert(prev.len() > 0);
                            assert(prev[0].0 == key);
                            assert(!(prev[0].0 is Str));
                            assert(record_fields_from(prev, acc) == Err::<
                                Seq<(Seq<char>, GmlValue)>,
                                GmlError,
                            >(GmlError::KeyNotString));
                            assert(record_of(v0) == record_fields_from(prev, acc));
                        }
                        return Err(GmlError::KeyNotString);
                    },
                }
            }
            Ok(fields)
        },
        _ => Err(GmlError::NotMap),
    }
}

/// The unsigned integer under `key`, where the record has that key and it
/// holds one.
pub fn find_uint(fields: &Vec<(String, GmlValue)>, key: &str) -> (r: Option<u64>)
    ensures
        r == uint_field(fields_view(fields@), key@),
{
    let mut i: usize = 0;
    proof {
        assert(fields_view(fields@).subrange(0, fields@.len() as int) =~= fields_view(fields@));
    }
    while i < fields.len()
        invariant
            0 <= i <= fields@.len(),
            field_of(fields_view(fields@), key@) == field_of(
                fields_view(fields@).subrange(i as int, fields@.len() as int),
                key@,
            ),
            forall|j: int| 0 <= j < i ==> (#[trigger] fields_view(fields@)[j]).0 != key@,
        decreases fields@.len() - i,
    {
        if str_eq(fields[i].0.as_str(), key) {
            let r = match &fields[i].1 {
                GmlValue::Uint(u) => Some(*u),
                _ => None,
            };
            proof {
                let tail = fields_view(fields@).subrange(i as int, fields@.len() as int);
                assert(tail[0] == fields_view(fields@)[i as int]);
            }
            return r;
        }
        proof {
            let view = fields_view(fields@);
            let tail = view.subrange(i as int, view.len() as int);
            assert(tail[0] == view[i as int]);
            assert(tail.subrange(1, tail.len() as int) =~= view.subrange(
                i + 1,
                view.len() as int,
            ));
        }
        i += 1;
    }
    None
}

/// The value under `key`, moved out of the record; `None` where the record
/// has no such key.
#[verifier::loop_isolation(false)]
pub fn take_field(fields: Vec<(String, GmlValue)>, key: &str) -> (r: Option<GmlValue>)
    ensures
        r == field_of(fields_view(fields@), key@),
{
    let ghost all = fields_view(fields@);
    let mut fields = fields;
    while fields.len() > 0
        invariant
            field_of(all, key@) == field_of(fields_view(fields@), key@),
        decreases fields@.len(),
    {
        let ghost before = fields_view(fields@);
        let (k, v) = fields.remove(0);
        if str_eq(k.as_str(), key) {
            proof {
                assert(before.len() > 0);
                assert(before[0].0 == k@ && before[0].1 == v);
                assert(field_of(before, key@) == Some(v));
                assert(field_of(all, key@) == Some(v));
            }
            return Some(v);
        }
        proof {
            assert(fields_view(fields@) =~= before.subrange(1, before.len() as int));
        }
    }
    None
}

} // verus!
