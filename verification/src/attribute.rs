//! Attribute values and record maps: the store's representation of one item.

use vstd::prelude::*;

verus! {

/// The tag of an attribute value, named as the store names it on the wire.
#[derive(Clone, Copy, Debug, PartialEq, Eq, Structural)]
pub enum AttributeKind {
    S,
    N,
    B,
    Bool,
    Null,
    L,
    M,
    Ss,
    Ns,
    Bs,
}

/// One scalar or collection value in the store's native format. A value has
/// exactly one kind.
#[derive(Debug)]
pub enum AttributeValue {
    /// A string.
    S(String),
    /// A number, in its decimal text form.
    N(String),
    /// Binary data.
    B(Vec<u8>),
    /// A boolean.
    Bool(bool),
    /// The null value.
    Null,
    /// A list of values.
    L(Vec<AttributeValue>),
    /// A nested record map.
    M(RecordMap),
    /// A set of strings.
    Ss(Vec<String>),
    /// A set of numbers, each in its decimal text form.
    Ns(Vec<String>),
    /// A set of binary values.
    Bs(Vec<Vec<u8>>),
}

/// One named attribute of a record map.
#[derive(Debug)]
pub struct Field {
    pub name: String,
    pub value: AttributeValue,
}

/// A mapping from field name to attribute value: one item of the store, or
/// the key that identifies one. No name occurs twice.
#[derive(Debug)]
pub struct RecordMap {
    entries: Vec<Field>,
}

impl AttributeValue {
    /// The kind of this value.
    pub open spec fn spec_kind(&self) -> AttributeKind {
        match *self {
            AttributeValue::S(_) => AttributeKind::S,
            AttributeValue::N(_) => AttributeKind::N,
            AttributeValue::B(_) => AttributeKind::B,
            AttributeValue::Bool(_) => AttributeKind::Bool,
            AttributeValue::Null => AttributeKind::Null,
            AttributeValue::L(_) => AttributeKind::L,
            AttributeValue::M(_) => AttributeKind::M,
            AttributeValue::Ss(_) => AttributeKind::Ss,
            AttributeValue::Ns(_) => AttributeKind::Ns,
            AttributeValue::Bs(_) => AttributeKind::Bs,
        }
    }

    /// The kind of this value.
    #[verifier::when_used_as_spec(spec_kind)]
    pub fn kind(&self) -> (kind: AttributeKind)
        ensures
            kind == self.spec_kind(),
    {
        match *self {
            AttributeValue::S(_) => AttributeKind::S,
            AttributeValue::N(_) => AttributeKind::N,
            AttributeValue::B(_) => AttributeKind::B,
            AttributeValue::Bool(_) => AttributeKind::Bool,
            AttributeValue::Null => AttributeKind::Null,
            AttributeValue::L(_) => AttributeKind::L,
            AttributeValue::M(_) => AttributeKind::M,
            AttributeValue::Ss(_) => AttributeKind::Ss,
            AttributeValue::Ns(_) => AttributeKind::Ns,
            AttributeValue::Bs(_) => AttributeKind::Bs,
        }
    }
}

/// An item, or the key of one, under the name that callers of the store's
/// client know it by.
pub type DdbMap = RecordMap;

/// Whether no two of the fields share a name.
pub open spec fn names_distinct(fields: Seq<Field>) -> bool {
    forall|i: int, j: int| 0 <= i < j < fields.len() ==> fields[i].name@ != fields[j].name@
}

/// Whether one of the fields is called `name`.
pub open spec fn names_field(fields: Seq<Field>, name: Seq<char>) -> bool {
    exists|i: int| 0 <= i < fields.len() && fields[i].name@ == name
}

/// The place of a field called `name`; meaningful where there is one.
pub open spec fn place_of(fields: Seq<Field>, name: Seq<char>) -> int {
    choose|i: int| 0 <= i < fields.len() && fields[i].name@ == name
}

/// The mapping that a listing of fields stands for.
pub open spec fn record_of(fields: Seq<Field>) -> Map<Seq<char>, AttributeValue> {
    Map::new(
        |name: Seq<char>| names_field(fields, name),
        |name: Seq<char>| fields[place_of(fields, name)].value,
    )
}

/// In a listing with distinct names, a field is found where it stands.
pub proof fn lemma_place_of(fields: Seq<Field>, i: int)
    requires
        names_distinct(fields),
        0 <= i < fields.len(),
    ensures
        names_field(fields, fields[i].name@),
        place_of(fields, fields[i].name@) == i,
        record_of(fields).contains_key(fields[i].name@),
        record_of(fields)[fields[i].name@] == fields[i].value,
{
    let name = fields[i].name@;
    let j = place_of(fields, name);
    assert(0 <= j < fields.len() && fields[j].name@ == name);
    if j < i {
        assert(fields[j].name@ != fields[i].name@);
    } else if i < j {
        assert(fields[i].name@ != fields[j].name@);
    }
}

/// Giving the field at `i` a new value gives its name that value in the
/// mapping.
proof fn lemma_record_of_update(fields: Seq<Field>, i: int, field: Field)
    requires
        names_distinct(fields),
        0 <= i < fields.len(),
        field.name@ == fields[i].name@,
    ensures
        names_distinct(fields.update(i, field)),
        record_of(fields.update(i, field)) == record_of(fields).insert(field.name@, field.value),
{
    let updated = fields.update(i, field);
    assert(names_distinct(updated)) by {
        assert forall|a: int, b: int| 0 <= a < b < updated.len() implies updated[a].name@
            != updated[b].name@ by {
            assert(fields[a].name@ != fields[b].name@);
        }
    }
    assert forall|name: Seq<char>| names_field(updated, name) == names_field(fields, name) by {
        if names_field(fields, name) {
            let j = place_of(fields, name);
            assert(updated[j].name@ == name);
        }
        if names_field(updated, name) {
            let j = place_of(updated, name);
            assert(fields[j].name@ == name);
        }
    }
    assert forall|name: Seq<char>| #[trigger]
        record_of(fields).insert(field.name@, field.value).contains_key(name) implies record_of(
        updated,
    )[name] == record_of(fields).insert(field.name@, field.value)[name] by {
        if name == field.name@ {
            lemma_place_of(updated, i);
        } else {
            let j = place_of(fields, name);
            assert(names_field(fields, name));
            lemma_place_of(fields, j);
            assert(j != i);
            lemma_place_of(updated, j);
        }
    }
    lemma_place_of(fields, i);
    assert(record_of(updated) =~= record_of(fields).insert(field.name@, field.value));
}

/// Appending a field with a new name adds its name and value to the mapping.
proof fn lemma_record_of_push(fields: Seq<Field>, field: Field)
    requires
        names_distinct(fields),
        !names_field(fields, field.name@),
    ensures
        names_distinct(fields.push(field)),
        record_of(fields.push(field)) == record_of(fields).insert(field.name@, field.value),
{
    let pushed = fields.push(field);
    assert(names_distinct(pushed)) by {
        assert forall|a: int, b: int| 0 <= a < b < pushed.len() implies pushed[a].name@
            != pushed[b].name@ by {
            if b < fields.len() {
                assert(fields[a].name@ != fields[b].name@);
            } else {
                assert(fields[a].name@ == pushed[a].name@);
            }
        }
    }
    let last = fields.len() as int;
    assert forall|name: Seq<char>| names_field(pushed, name) == (names_field(fields, name) || name
        == field.name@) by {
        if names_field(fields, name) {
            let j = place_of(fields, name);
            assert(pushed[j].name@ == name);
        }
        if name == field.name@ {
            assert(pushed[last].name@ == name);
        }
        if names_field(pushed, name) {
            let j = place_of(pushed, name);
            if j < last {
                assert(fields[j].name@ == name);
            }
        }
    }
    assert forall|name: Seq<char>| #[trigger]
        record_of(fields).insert(field.name@, field.value).contains_key(name) implies record_of(
        pushed,
    )[name] == record_of(fields).insert(field.name@, field.value)[name] by {
        if name == field.name@ {
            lemma_place_of(pushed, last);
        } else {
            let j = place_of(fields, name);
            assert(names_field(fields, name));
            lemma_place_of(fields, j);
            lemma_place_of(pushed, j);
        }
    }
    assert(record_of(pushed) =~= record_of(fields).insert(field.name@, field.value));
}

impl View for RecordMap {
    type V = Map<Seq<char>, AttributeValue>;

    closed spec fn view(&self) -> Map<Seq<char>, AttributeValue> {
        record_of(self.entries@)
    }
}

impl RecordMap {
    #[verifier::type_invariant]
    spec fn well_formed(self) -> bool {
        names_distinct(self.entries@)
    }

    /// A map without fields.
    pub fn new() -> (map: RecordMap)
        ensures
            map@ == Map::<Seq<char>, AttributeValue>::empty(),
    {
        let map = RecordMap { entries: Vec::new() };
        assert(map@ =~= Map::<Seq<char>, AttributeValue>::empty());
        map
    }

    /// Where the field called `name` stands, if the map has one.
    fn find(&self, name: &String) -> (place: Option<usize>)
        ensures
            match place {
                Some(i) => i < self.entries.len() && self.entries[i as int].name@ == name@,
                None => !names_field(self.entries@, name@),
            },
    {
        let mut i: usize = 0;
        while i < self.entries.len()
            invariant
                i <= self.entries.len(),
                forall|j: int| 0 <= j < i ==> self.entries[j].name@ != name@,
            decreases self.entries.len() - i,
        {
            if self.entries[i].name == *name {
                return Some(i);
            }
            i += 1;
        }
        None
    }

    /// The value of the field called `name`, if the map has one.
    pub fn get(&self, name: &str) -> (value: Option<&AttributeValue>)
        ensures
            match value {
                Some(v) => self@.contains_key(name@) && *v == self@[name@],
                None => !self@.contains_key(name@),
            },
    {
        proof {
            use_type_invariant(self);
        }
        let wanted = name.to_owned();
        match self.find(&wanted) {
            Some(i) => {
                proof {
                    lemma_place_of(self.entries@, i as int);
                }
                Some(&self.entries[i].value)
            },
            None => None,
        }
    }

    /// Whether the map has a field called `name`.
    pub fn contains_key(&self, name: &str) -> (present: bool)
        ensures
            present == self@.contains_key(name@),
    {
        self.get(name).is_some()
    }

    /// Sets the field called `name` to `value`, whether or not the map had
    /// such a field before.
    pub fn insert(&mut self, name: String, value: AttributeValue)
        ensures
            final(self)@ == old(self)@.insert(name@, value),
    {
        proof {
            use_type_invariant(&*self);
        }
        let place = self.find(&name);
        let field = Field { name, value };
        let mut entries: Vec<Field> = Vec::new();
        core::mem::swap(&mut self.entries, &mut entries);
        match place {
            Some(i) => {
                proof {
                    lemma_record_of_update(entries@, i as int, field);
                }
                entries.set(i, field);
            },
            None => {
                proof {
                    lemma_record_of_push(entries@, field);
                }
                entries.push(field);
            },
        }
        core::mem::swap(&mut self.entries, &mut entries);
    }

    /// The fields of the map, each name once.
    pub fn fields(&self) -> (fields: &Vec<Field>)
        ensures
            names_distinct(fields@),
            record_of(fields@) == self@,
    {
        proof {
            use_type_invariant(self);
        }
        &self.entries
    }
}

/// Wraps a string into the attribute value that stands for it.
pub fn encode(value: String) -> (attribute: AttributeValue)
    ensures
        attribute == AttributeValue::S(value),
{
    AttributeValue::S(value)
}

/// Sets the field `key` of `item` to the string `val`, overwriting what the
/// field held, and hands the map back for chaining.
pub fn set_kv(item: &mut RecordMap, key: String, val: String) -> (updated: &RecordMap)
    ensures
        final(item)@ == old(item)@.insert(key@, AttributeValue::S(val)),
        updated@ == final(item)@,
{
    item.insert(key, encode(val));
    item
}

} // verus!
