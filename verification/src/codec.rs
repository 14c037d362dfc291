//! Reading typed fields out of a record map.
//!
//! A record map that the store hands back may lack a field or hold it under
//! another kind than the reader expects. Both are ordinary outcomes here, told
//! apart in the error, which names the field.

use vstd::prelude::*;
use crate::attribute::{
    names_distinct, names_field, AttributeKind, AttributeValue, Field, RecordMap,
};
use crate::error::DecodeError;

verus! {

/// What a typed record declares of one of its fields.
#[derive(Debug)]
pub struct FieldShape {
    pub name: String,
    /// The kind of value that the field holds.
    pub kind: AttributeKind,
    /// Whether a record map without the field is refused.
    pub required: bool,
}

/// Whether a record holds `field` as declared: with a value of the declared
/// kind, or not at all where the field is optional.
pub open spec fn fits(record: Map<Seq<char>, AttributeValue>, field: FieldShape) -> bool {
    if record.contains_key(field.name@) {
        record[field.name@].kind() == field.kind
    } else {
        !field.required
    }
}

/// Whether `error` is the complaint about `field` in a record that does not
/// hold it as declared: the field by name, and what is wrong with it.
pub open spec fn complains_of(
    error: DecodeError,
    record: Map<Seq<char>, AttributeValue>,
    field: FieldShape,
) -> bool {
    if record.contains_key(field.name@) {
        &&& error matches DecodeError::KindMismatch { field: name, expected, found }
        &&& name@ == field.name@
        &&& expected == field.kind
        &&& found == record[field.name@].kind()
    } else {
        &&& error matches DecodeError::MissingField { field: name }
        &&& name@ == field.name@
    }
}

/// Reads a record map as a typed record of the given shape: for each field
/// of the shape, in its order, the value that the map holds under the
/// field's name, and `None` for an optional field that the map lacks.
///
/// The map is refused where it lacks a required field or holds a field
/// under another kind than declared; the error names the first such field
/// of the shape. Fields of the map that the shape does not declare are
/// passed over.
pub fn decode<'a>(item: &'a RecordMap, shape: &Vec<FieldShape>) -> (decoded: Result<
    Vec<Option<&'a AttributeValue>>,
    DecodeError,
>)
    ensures
        match decoded {
            Ok(values) => {
                &&& values.len() == shape.len()
                &&& forall|i: int| 0 <= i < shape.len() ==> fits(item@, #[trigger] shape[i])
                &&& forall|i: int|
                    0 <= i < shape.len() ==> match #[trigger] values[i] {
                        Some(value) => item@.contains_key(shape[i].name@) && *value
                            == item@[shape[i].name@],
                        None => !item@.contains_key(shape[i].name@),
                    }
            },
            Err(error) => exists|k: int|
                {
                    &&& 0 <= k < shape.len()
                    &&& !fits(item@, #[trigger] shape[k])
                    &&& forall|j: int| 0 <= j < k ==> fits(item@, #[trigger] shape[j])
                    &&& complains_of(error, item@, shape[k])
                },
        },
{
    let mut values: Vec<Option<&'a AttributeValue>> = Vec::new();
    let mut k: usize = 0;
    while k < shape.len()
        invariant
            k <= shape.len(),
            values.len() == k,
            forall|i: int| 0 <= i < k ==> fits(item@, #[trigger] shape[i]),
            forall|i: int|
                0 <= i < k ==> match #[trigger] values[i] {
                    Some(value) => item@.contains_key(shape[i].name@) && *value
                        == item@[shape[i].name@],
                    None => !item@.contains_key(shape[i].name@),
                },
        decreases shape.len() - k,
    {
        let field = &shape[k];
        match item.get(field.name.as_str()) {
            Some(value) => {
                let found = value.kind();
                if found != field.kind {
                    let error = DecodeError::KindMismatch {
                        field: field.name.clone(),
                        expected: field.kind,
                        found,
                    };
                    assert(!fits(item@, shape[k as int]));
                    return Err(error);
                }
                values.push(Some(value));
            },
            None => {
                if field.required {
                    let error = DecodeError::MissingField { field: field.name.clone() };
                    assert(!fits(item@, shape[k as int]));
                    return Err(error);
                }
                values.push(None);
            },
        }
        k += 1;
    }
    Ok(values)
}

/// The string that a record holds under `field`, if it holds one there.
pub open spec fn string_in(record: Map<Seq<char>, AttributeValue>, field: Seq<char>) -> Option<
    String,
> {
    if record.contains_key(field) {
        match record[field] {
            AttributeValue::S(text) => Some(text),
            _ => None,
        }
    } else {
        None
    }
}

/// Reads the required field `field`, which must hold a value of the kind
/// `expected`.
pub fn decode_field<'a>(item: &'a RecordMap, field: &str, expected: AttributeKind) -> (decoded:
    Result<&'a AttributeValue, DecodeError>)
    ensures
        match decoded {
            Ok(value) => item@.contains_key(field@) && *value == item@[field@] && value.kind()
                == expected,
            Err(DecodeError::MissingField { field: name }) => !item@.contains_key(field@) && name@
                == field@,
            Err(DecodeError::KindMismatch { field: name, expected: wanted, found }) =>
                item@.contains_key(field@) && name@ == field@ && wanted == expected && found
                == item@[field@].kind() && found != expected,
            Err(DecodeError::Malformed { .. }) => false,
        },
{
    match item.get(field) {
        None => Err(DecodeError::MissingField { field: field.to_owned() }),
        Some(value) => {
            let found = value.kind();
            if found == expected {
                Ok(value)
            } else {
                Err(DecodeError::KindMismatch { field: field.to_owned(), expected, found })
            }
        },
    }
}

/// Reads the required string field `field`.
pub fn decode_string(item: &RecordMap, field: &str) -> (decoded: Result<String, DecodeError>)
    ensures
        match decoded {
            Ok(text) => string_in(item@, field@) == Some(text),
            Err(DecodeError::MissingField { field: name }) => !item@.contains_key(field@) && name@
                == field@,
            Err(DecodeError::KindMismatch { field: name, expected, found }) => item@.contains_key(
                field@,
            ) && name@ == field@ && expected == AttributeKind::S && found == item@[field@].kind()
                && found != AttributeKind::S,
            Err(DecodeError::Malformed { .. }) => false,
        },
{
    match item.get(field) {
        None => Err(DecodeError::MissingField { field: field.to_owned() }),
        Some(AttributeValue::S(text)) => Ok(text.clone()),
        Some(other) => Err(
            DecodeError::KindMismatch {
                field: field.to_owned(),
                expected: AttributeKind::S,
                found: other.kind(),
            },
        ),
    }
}

/// Reads the optional string field `field`: an absent field reads as `None`
/// and is no error.
pub fn decode_optional_string(item: &RecordMap, field: &str) -> (decoded: Result<
    Option<String>,
    DecodeError,
>)
    ensures
        match decoded {
            Ok(Some(text)) => string_in(item@, field@) == Some(text),
            Ok(None) => !item@.contains_key(field@),
            Err(DecodeError::KindMismatch { field: name, expected, found }) => item@.contains_key(
                field@,
            ) && name@ == field@ && expected == AttributeKind::S && found == item@[field@].kind()
                && found != AttributeKind::S,
            Err(_) => false,
        },
{
    match item.get(field) {
        None => Ok(None),
        Some(AttributeValue::S(text)) => Ok(Some(text.clone())),
        Some(other) => Err(
            DecodeError::KindMismatch {
                field: field.to_owned(),
                expected: AttributeKind::S,
                found: other.kind(),
            },
        ),
    }
}

/// The record after the fields have been written into it one after the
/// other, as `insert` and `set_kv` write them.
pub open spec fn written(record: Map<Seq<char>, AttributeValue>, fields: Seq<Field>) -> Map<
    Seq<char>,
    AttributeValue,
>
    decreases fields.len(),
{
    if fields.len() == 0 {
        record
    } else {
        written(record, fields.drop_last()).insert(fields.last().name@, fields.last().value)
    }
}

/// Writing fields leaves what the record holds under other names.
proof fn lemma_written_elsewhere(
    record: Map<Seq<char>, AttributeValue>,
    fields: Seq<Field>,
    other: Seq<char>,
)
    requires
        !names_field(fields, other),
    ensures
        written(record, fields).contains_key(other) == record.contains_key(other),
        record.contains_key(other) ==> written(record, fields)[other] == record[other],
    decreases fields.len(),
{
    if fields.len() > 0 {
        let before = fields.drop_last();
        assert(fields[fields.len() - 1].name@ != other);
        assert(!names_field(before, other)) by {
            if names_field(before, other) {
                let j = choose|j: int| 0 <= j < before.len() && before[j].name@ == other;
                assert(fields[j].name@ == other);
            }
        }
        lemma_written_elsewhere(record, before, other);
    }
}

/// After fields with distinct names have been written, the name of each
/// holds its value.
proof fn lemma_written_at(record: Map<Seq<char>, AttributeValue>, fields: Seq<Field>, i: int)
    requires
        names_distinct(fields),
        0 <= i < fields.len(),
    ensures
        written(record, fields).contains_key(fields[i].name@),
        written(record, fields)[fields[i].name@] == fields[i].value,
    decreases fields.len(),
{
    if i < fields.len() - 1 {
        let before = fields.drop_last();
        assert(fields[i].name@ != fields[fields.len() - 1].name@);
        assert(before[i] == fields[i]);
        lemma_written_at(record, before, i);
    }
}

/// What is written reads back. After fields with distinct names have been
/// written into a record, whatever it held before, each of the names holds
/// the value written under it: the record fits the shape that requires the
/// name with the kind of that value, and a string reads back as the string
/// that was written. What the record holds under other names is as before.
pub proof fn lemma_decode_round_trip(record: Map<Seq<char>, AttributeValue>, fields: Seq<Field>)
    requires
        names_distinct(fields),
    ensures
        forall|i: int|
            #![trigger fields[i]]
            0 <= i < fields.len() ==> {
                &&& written(record, fields).contains_key(fields[i].name@)
                &&& written(record, fields)[fields[i].name@] == fields[i].value
                &&& fits(
                    written(record, fields),
                    (FieldShape {
                        name: fields[i].name,
                        kind: fields[i].value.kind(),
                        required: true,
                    }),
                )
                &&& fields[i].value matches AttributeValue::S(text) ==> string_in(
                    written(record, fields),
                    fields[i].name@,
                ) == Some(text)
            },
        forall|other: Seq<char>|
            !names_field(fields, other) ==> {
                &&& #[trigger] written(record, fields).contains_key(other) == record.contains_key(
                    other,
                )
                &&& record.contains_key(other) ==> written(record, fields)[other] == record[other]
            },
{
    assert forall|i: int| #![trigger fields[i]] 0 <= i < fields.len() implies {
        &&& written(record, fields).contains_key(fields[i].name@)
        &&& written(record, fields)[fields[i].name@] == fields[i].value
    } by {
        lemma_written_at(record, fields, i);
    }
    assert forall|other: Seq<char>| !names_field(fields, other) implies {
        &&& #[trigger] written(record, fields).contains_key(other) == record.contains_key(other)
        &&& record.contains_key(other) ==> written(record, fields)[other] == record[other]
    } by {
        lemma_written_elsewhere(record, fields, other);
    }
}

} // verus!
