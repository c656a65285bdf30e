use vstd::prelude::*;

verus! {

/// Host-facing structured value: the JSON-like tree in which the host hands
/// data, bindings and configuration to the binding, and in which results are
/// handed back. Objects keep their fields in order as a list of pairs.
#[derive(Debug, PartialEq)]
pub enum Value {
    Null,
    Bool(bool),
    Int(i64),
    Strand(String),
    Array(Vec<Value>),
    Object(Vec<(String, Value)>),
}

/// First value bound to `key` in an object's field list, if any.
pub open spec fn lookup(fields: Seq<(String, Value)>, key: Seq<char>) -> Option<Value>
    decreases fields.len(),
{
    if fields.len() == 0 {
        None
    } else if fields[0].0@ == key {
        Some(fields[0].1)
    } else {
        lookup(fields.drop_first(), key)
    }
}

/// An object entry that is present and holds a string.
pub open spec fn strand_entry(x: Option<Value>) -> bool {
    match x {
        Option::Some(v) => v is Strand,
        Option::None => false,
    }
}

pub open spec fn has_key(fields: Seq<(String, Value)>, key: Seq<char>) -> bool {
    exists|i: int| 0 <= i < fields.len() && fields[i].0@ == key
}

/// The field list with the first binding of `key` removed; unchanged when
/// `key` is absent.
pub open spec fn remove_key(fields: Seq<(String, Value)>, key: Seq<char>) -> Seq<(String, Value)>
    decreases fields.len(),
{
    if fields.len() == 0 {
        fields
    } else if fields[0].0@ == key {
        fields.drop_first()
    } else {
        seq![fields[0]] + remove_key(fields.drop_first(), key)
    }
}

pub proof fn lemma_lookup_some_iff_has_key(fields: Seq<(String, Value)>, key: Seq<char>)
    ensures
        lookup(fields, key) is Some <==> has_key(fields, key),
    decreases fields.len(),
{
    if fields.len() == 0 {
    } else if fields[0].0@ == key {
    } else {
        lemma_lookup_some_iff_has_key(fields.drop_first(), key);
        assert forall|i: int| 0 <= i < fields.len() && fields[i].0@ == key implies has_key(
            fields.drop_first(),
            key,
        ) by {
            assert(fields.drop_first()[i - 1] == fields[i]);
        }
    }
}

/// When the first occurrence of `key` stands at index `i`, looking it up
/// yields that binding and removing it deletes exactly that index.
pub proof fn lemma_first_occurrence(fields: Seq<(String, Value)>, key: Seq<char>, i: int)
    requires
        0 <= i < fields.len(),
        fields[i].0@ == key,
        forall|j: int| 0 <= j < i ==> #[trigger] fields[j].0@ != key,
    ensures
        lookup(fields, key) == Some(fields[i].1),
        remove_key(fields, key) =~= fields.remove(i),
    decreases i,
{
    if i == 0 {
        assert(remove_key(fields, key) =~= fields.remove(0));
    } else {
        let rest = fields.drop_first();
        assert(rest[i - 1] == fields[i]);
        assert forall|j: int| 0 <= j < i - 1 implies #[trigger] rest[j].0@ != key by {
            assert(rest[j] == fields[j + 1]);
        }
        lemma_first_occurrence(rest, key, i - 1);
        assert(remove_key(fields, key) =~= seq![fields[0]] + rest.remove(i - 1));
        assert(seq![fields[0]] + rest.remove(i - 1) =~= fields.remove(i));
    }
}

pub proof fn lemma_no_occurrence(fields: Seq<(String, Value)>, key: Seq<char>)
    requires
        forall|j: int| 0 <= j < fields.len() ==> #[trigger] fields[j].0@ != key,
    ensures
        lookup(fields, key) is None,
        remove_key(fields, key) =~= fields,
    decreases fields.len(),
{
    if fields.len() == 0 {
    } else {
        let rest = fields.drop_first();
        assert forall|j: int| 0 <= j < rest.len() implies #[trigger] rest[j].0@ != key by {
            assert(rest[j] == fields[j + 1]);
        }
        lemma_no_occurrence(rest, key);
        assert(remove_key(fields, key) =~= seq![fields[0]] + rest);
        assert(seq![fields[0]] + rest =~= fields);
    }
}

/// Removing one key's first binding leaves every other key's first binding
/// in place.
pub proof fn lemma_lookup_remove_other(fields: Seq<(String, Value)>, k1: Seq<char>, k2: Seq<char>)
    requires
        k1 != k2,
    ensures
        lookup(remove_key(fields, k1), k2) == lookup(fields, k2),
    decreases fields.len(),
{
    if fields.len() == 0 {
    } else if fields[0].0@ == k1 {
    } else {
        let rest = fields.drop_first();
        lemma_lookup_remove_other(rest, k1, k2);
        assert((seq![fields[0]] + remove_key(rest, k1)).drop_first() =~= remove_key(rest, k1));
        assert((seq![fields[0]] + remove_key(rest, k1))[0] == fields[0]);
    }
}

/// Moves the first binding of `key` out of the object's field list, leaving
/// the remaining fields in order; `None` and no change when `key` is absent.
pub fn take_field(fields: &mut Vec<(String, Value)>, key: &String) -> (r: Option<Value>)
    ensures
        match r {
            Some(v) => has_key(old(fields)@, key@) && lookup(old(fields)@, key@) == Some(v)
                && final(fields)@ == remove_key(old(fields)@, key@),
            None => !has_key(old(fields)@, key@) && lookup(old(fields)@, key@) is None
                && final(fields)@ == old(fields)@,
        },
{
    let mut i: usize = 0;
    while i < fields.len()
        invariant
            0 <= i <= fields.len(),
            fields@ == old(fields)@,
            forall|j: int| 0 <= j < i ==> #[trigger] fields@[j].0@ != key@,
        decreases fields.len() - i,
    {
        if fields[i].0 == *key {
            proof {
                lemma_first_occurrence(fields@, key@, i as int);
            }
            let pair = fields.remove(i);
            return Some(pair.1);
        }
        i += 1;
    }
    proof {
        lemma_no_occurrence(fields@, key@);
        lemma_lookup_some_iff_has_key(fields@, key@);
    }
    None
}

/// Relies on String::from_utf8: it succeeds exactly on valid UTF-8 input
/// and returns the string those bytes encode.
#[verifier::external_body]
pub(crate) fn string_from_utf8(bytes: Vec<u8>) -> (r: Option<String>)
    ensures
        r is Some <==> vstd::utf8::valid_utf8(bytes@),
        r matches Some(s) ==> s@ == vstd::utf8::decode_utf8(bytes@),
{
    String::from_utf8(bytes).ok()
}

/// Reads the first binding of `key` without disturbing the object.
pub fn get_field<'a>(fields: &'a Vec<(String, Value)>, key: &String) -> (r: Option<&'a Value>)
    ensures
        match r {
            Some(v) => lookup(fields@, key@) == Some(*v),
            None => !has_key(fields@, key@) && lookup(fields@, key@) is None,
        },
{
    let mut i: usize = 0;
    while i < fields.len()
        invariant
            0 <= i <= fields.len(),
            forall|j: int| 0 <= j < i ==> #[trigger] fields@[j].0@ != key@,
        decreases fields.len() - i,
    {
        if fields[i].0 == *key {
            proof {
                lemma_first_occurrence(fields@, key@, i as int);
            }
            return Some(&fields[i].1);
        }
        i += 1;
    }
    proof {
        lemma_no_occurrence(fields@, key@);
        lemma_lookup_some_iff_has_key(fields@, key@);
    }
    None
}

} // verus!
