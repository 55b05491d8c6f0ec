//! Keys of a secondary index over stored values.
//!
//! A secondary index maps a key derived from a field of a stored value,
//! together with the value's primary key, back to that primary key. Storing
//! and deleting an index entry for a primary key and its value address the
//! same index key, and a lookup by a field value starts at the key that a
//! value with that field was stored under.
use vstd::prelude::*;

verus! {

/// A field that values can be filtered by. Its index key for a primary key
/// is where the index entry of that primary key is stored.
pub trait FilterField<PrimaryKey>: Sized {
    /// The type of the index keys.
    type Key;

    /// Builds the index key of this field value for `primary_key`.
    fn make_index(&self, primary_key: &PrimaryKey) -> Self::Key;
}

/// Access to a field of type `T` of a value.
pub trait Access<T> {
    /// Reads the field of this value.
    fn accessor(&self) -> T;
}

/// The index key under which the entry for `primary_key` and its stored
/// `value` is written, and from which it is deleted: the index key that the
/// value's field builds for that primary key.
pub fn index_key<PrimaryKey, Value, Field>(primary_key: &PrimaryKey, value: &Value) -> (key:
    Field::Key) where Value: Access<Field>, Field: FilterField<PrimaryKey>
    ensures
        exists|field: Field|
            call_ensures(Value::accessor, (value,), field) && call_ensures(
                Field::make_index,
                (&field, primary_key),
                key,
            ),
{
    let field = value.accessor();
    let key = field.make_index(primary_key);
    assert(call_ensures(Value::accessor, (value,), field));
    key
}

/// The index key where a lookup of the entries with field value `field`,
/// from `primary_key`, begins: the index key that `field` builds for it.
pub fn concrete_prefix<PrimaryKey, Field>(primary_key: &PrimaryKey, field: &Field) -> (key:
    Field::Key) where Field: FilterField<PrimaryKey>
    ensures
        call_ensures(Field::make_index, (field, primary_key), key),
{
    field.make_index(primary_key)
}

/// Lookup law: when a value's field and the index keys that fields build
/// depend on their arguments alone, a lookup by the field read from a
/// stored value, from its primary key, begins exactly at the key that the
/// value's index entry was stored under.
pub proof fn lemma_lookup_finds_stored<PrimaryKey, Value, Field>(
    primary_key: &PrimaryKey,
    value: &Value,
    stored: Field::Key,
    field: Field,
    looked_up: Field::Key,
) where Value: Access<Field>, Field: FilterField<PrimaryKey>
    requires
        forall|f1: Field, f2: Field|
            call_ensures(Value::accessor, (value,), f1) && call_ensures(Value::accessor, (value,), f2)
                ==> f1 == f2,
        forall|f: Field, k1: Field::Key, k2: Field::Key|
            call_ensures(Field::make_index, (&f, primary_key), k1) && call_ensures(
                Field::make_index,
                (&f, primary_key),
                k2,
            ) ==> k1 == k2,
        exists|f: Field|
            call_ensures(Value::accessor, (value,), f) && call_ensures(
                Field::make_index,
                (&f, primary_key),
                stored,
            ),
        call_ensures(Value::accessor, (value,), field),
        call_ensures(Field::make_index, (&field, primary_key), looked_up),
    ensures
        looked_up == stored,
{
    let f = choose|f: Field|
        call_ensures(Value::accessor, (value,), f) && call_ensures(
            Field::make_index,
            (&f, primary_key),
            stored,
        );
    assert(f == field);
}

} // verus!
