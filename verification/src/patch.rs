use vstd::prelude::*;
use crate::error::{Error, ErrorKind};
use crate::value::{lemma_lookup_remove_other, lookup, remove_key, strand_entry, take_field, Value};

verus! {

/// One JSON-Patch-like operation: a path plus, except for a removal, a
/// value or diff payload.
#[derive(Debug, PartialEq)]
pub enum PatchOp {
    Add { path: String, value: Value },
    Remove { path: String },
    Replace { path: String, value: Value },
    Change { path: String, diff: String },
}

/// What a CRUD mutation asks the engine to do to the matched records: new
/// content, a merge, a composed patch, or nothing at all.
#[derive(Debug, PartialEq)]
pub enum UpdateAction {
    Content(Value),
    Merge(Value),
    Patch(Vec<PatchOp>),
    Unchanged,
}

pub open spec fn strand_is(x: Option<Value>, w: Seq<char>) -> bool {
    match x {
        Option::Some(v) => v matches Value::Strand(s) && s@ == w,
        Option::None => false,
    }
}

/// The well-shaped patch operations: an object naming one of the four
/// operations, a path, and the payload the operation demands.
pub open spec fn patch_op_shape(v: Value) -> bool {
    v is Object && {
        let f = v->Object_0@;
        &&& strand_entry(lookup(f, "path"@))
        &&& {
            ||| (strand_is(lookup(f, "op"@), "add"@) && lookup(f, "value"@) is Some)
            ||| strand_is(lookup(f, "op"@), "remove"@)
            ||| (strand_is(lookup(f, "op"@), "replace"@) && lookup(f, "value"@) is Some)
            ||| (strand_is(lookup(f, "op"@), "change"@) && strand_entry(lookup(f, "value"@)))
        }
    }
}

/// `op` is the reading of the patch-operation object `v`.
pub open spec fn patch_op_rel(v: Value, op: PatchOp) -> bool {
    v is Object && {
        let f = v->Object_0@;
        match op {
            PatchOp::Add { path, value } => {
                &&& strand_is(lookup(f, "op"@), "add"@)
                &&& lookup(f, "path"@) == Option::Some(Value::Strand(path))
                &&& lookup(f, "value"@) == Option::Some(value)
            },
            PatchOp::Remove { path } => {
                &&& strand_is(lookup(f, "op"@), "remove"@)
                &&& lookup(f, "path"@) == Option::Some(Value::Strand(path))
            },
            PatchOp::Replace { path, value } => {
                &&& strand_is(lookup(f, "op"@), "replace"@)
                &&& lookup(f, "path"@) == Option::Some(Value::Strand(path))
                &&& lookup(f, "value"@) == Option::Some(value)
            },
            PatchOp::Change { path, diff } => {
                &&& strand_is(lookup(f, "op"@), "change"@)
                &&& lookup(f, "path"@) == Option::Some(Value::Strand(path))
                &&& lookup(f, "value"@) == Option::Some(Value::Strand(diff))
            },
        }
    }
}

proof fn lemma_patch_keys_distinct()
    ensures
        "op"@ != "path"@,
        "op"@ != "value"@,
        "path"@ != "value"@,
{
    reveal_strlit("op");
    reveal_strlit("path");
    reveal_strlit("value");
    assert("op"@.len() == 2);
    assert("path"@.len() == 4);
    assert("value"@.len() == 5);
}

/// The four operation names are distinct words.
proof fn lemma_patch_ops_distinct()
    ensures
        "add"@ != "remove"@,
        "add"@ != "replace"@,
        "add"@ != "change"@,
        "remove"@ != "replace"@,
        "remove"@ != "change"@,
        "replace"@ != "change"@,
{
    reveal_strlit("add");
    reveal_strlit("remove");
    reveal_strlit("replace");
    reveal_strlit("change");
    assert("add"@.len() == 3);
    assert("remove"@.len() == 6);
    assert("replace"@.len() == 7);
    assert("change"@.len() == 6);
    assert("remove"@[0] == 'r');
    assert("change"@[0] == 'c');
}

/// Reads one patch operation, consuming it; a malformed operation is an
/// encoding error, never a silent default.
pub fn parse_patch_op(v: Value) -> (r: Result<PatchOp, Error>)
    ensures
        match r {
            Ok(op) => patch_op_shape(v) && patch_op_rel(v, op),
            Err(e) => !patch_op_shape(v) && e.kind == ErrorKind::Encoding,
        },
{
    let mut fields = match v {
        Value::Object(fields) => fields,
        _ => {
            return Err(
                Error::new(ErrorKind::Encoding, "expected a patch-operation object".to_owned()),
            );
        },
    };
    let ghost f = fields@;
    proof {
        lemma_patch_keys_distinct();
        lemma_patch_ops_distinct();
    }
    let op_name = match take_field(&mut fields, &"op".to_owned()) {
        Option::Some(Value::Strand(s)) => s,
        _ => {
            return Err(
                Error::new(ErrorKind::Encoding, "a patch operation needs an op name".to_owned()),
            );
        },
    };
    proof {
        lemma_lookup_remove_other(f, "op"@, "path"@);
        lemma_lookup_remove_other(f, "op"@, "value"@);
    }
    let path = match take_field(&mut fields, &"path".to_owned()) {
        Option::Some(Value::Strand(s)) => s,
        _ => {
            return Err(
                Error::new(ErrorKind::Encoding, "a patch operation needs a path".to_owned()),
            );
        },
    };
    proof {
        lemma_lookup_remove_other(remove_key(f, "op"@), "path"@, "value"@);
    }
    if op_name == "add".to_owned() {
        match take_field(&mut fields, &"value".to_owned()) {
            Option::Some(value) => Ok(PatchOp::Add { path, value }),
            Option::None => Err(
                Error::new(ErrorKind::Encoding, "an add operation needs a value".to_owned()),
            ),
        }
    } else if op_name == "remove".to_owned() {
        Ok(PatchOp::Remove { path })
    } else if op_name == "replace".to_owned() {
        match take_field(&mut fields, &"value".to_owned()) {
            Option::Some(value) => Ok(PatchOp::Replace { path, value }),
            Option::None => Err(
                Error::new(ErrorKind::Encoding, "a replace operation needs a value".to_owned()),
            ),
        }
    } else if op_name == "change".to_owned() {
        match take_field(&mut fields, &"value".to_owned()) {
            Option::Some(Value::Strand(diff)) => Ok(PatchOp::Change { path, diff }),
            _ => Err(
                Error::new(ErrorKind::Encoding, "a change operation needs a diff".to_owned()),
            ),
        }
    } else {
        Err(Error::new(ErrorKind::Encoding, "unknown patch operation".to_owned()))
    }
}

/// Reads an ordered patch list, consuming it; the operations keep their
/// order, and one malformed entry fails the whole list with an encoding
/// error.
pub fn parse_patch_list(v: Value) -> (r: Result<Vec<PatchOp>, Error>)
    ensures
        match r {
            Ok(ops) => v is Array && {
                let vs = v->Array_0@;
                &&& ops@.len() == vs.len()
                &&& forall|i: int|
                    0 <= i < vs.len() ==> patch_op_shape(#[trigger] vs[i]) && patch_op_rel(
                        vs[i],
                        ops@[i],
                    )
            },
            Err(e) => (!(v is Array) || exists|i: int|
                0 <= i < v->Array_0@.len() && !patch_op_shape(#[trigger] v->Array_0@[i]))
                && e.kind == ErrorKind::Encoding,
        },
{
    let mut items = match v {
        Value::Array(items) => items,
        _ => {
            return Err(Error::new(ErrorKind::Encoding, "expected a patch list".to_owned()));
        },
    };
    let ghost vs = items@;
    let mut ops: Vec<PatchOp> = Vec::new();
    let ghost mut i: int = 0;
    while items.len() > 0
        invariant
            v is Array,
            v->Array_0@ == vs,
            0 <= i <= vs.len(),
            items@ =~= vs.subrange(i, vs.len() as int),
            ops@.len() == i,
            forall|j: int|
                0 <= j < i ==> patch_op_shape(#[trigger] vs[j]) && patch_op_rel(vs[j], ops@[j]),
        decreases items@.len(),
    {
        let item = items.remove(0);
        proof {
            assert(item == vs[i]);
            assert(items@ =~= vs.subrange(i + 1, vs.len() as int));
        }
        match parse_patch_op(item) {
            Ok(op) => {
                ops.push(op);
            },
            Err(e) => {
                proof {
                    assert(0 <= i < v->Array_0@.len() && !patch_op_shape(v->Array_0@[i]));
                }
                return Err(e);
            },
        }
        proof {
            i = i + 1;
        }
    }
    Ok(ops)
}

/// How a patch list composes into the one update request that is sent: an
/// empty list composes to no content change at all.
pub open spec fn patch_composes_to(ops: Seq<PatchOp>, a: UpdateAction) -> bool {
    if ops.len() == 0 {
        a is Unchanged
    } else {
        a matches UpdateAction::Patch(ps) && ps@ == ops
    }
}

/// What a plain update with the given content sends.
pub open spec fn update_request_rel(content: Option<Value>, a: UpdateAction) -> bool {
    match content {
        Option::Some(v) => a == UpdateAction::Content(v),
        Option::None => a is Unchanged,
    }
}

/// Folds an ordered patch list into one composite update request.
pub fn fold_patches(ops: Vec<PatchOp>) -> (r: UpdateAction)
    ensures
        patch_composes_to(ops@, r),
{
    if ops.len() == 0 {
        UpdateAction::Unchanged
    } else {
        UpdateAction::Patch(ops)
    }
}

/// The request a plain update sends for the given content.
pub fn update_request(content: Option<Value>) -> (r: UpdateAction)
    ensures
        update_request_rel(content, r),
{
    match content {
        Option::Some(v) => UpdateAction::Content(v),
        Option::None => UpdateAction::Unchanged,
    }
}

/// An empty patch list composes to exactly the request a plain update with
/// no content sends: the two calls are indistinguishable at the engine.
pub proof fn lemma_empty_patch_is_plain_update(a: UpdateAction)
    ensures
        patch_composes_to(Seq::<PatchOp>::empty(), a) <==> update_request_rel(Option::None, a),
{
}

} // verus!
