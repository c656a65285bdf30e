use vstd::prelude::*;
use crate::value::Value;

verus! {

/// Wraps a lone engine value into a one-element sequence, handing an array
/// through unchanged, so responses keep an always-an-array shape.
pub fn array_response(response: Value) -> (r: Value)
    ensures
        response is Array ==> r == response,
        !(response is Array) ==> r is Array && r->Array_0@ =~= seq![response] && r->Array_0@.len()
            == 1,
{
    match response {
        Value::Array(_) => response,
        other => {
            let mut items: Vec<Value> = Vec::new();
            items.push(other);
            Value::Array(items)
        },
    }
}

} // verus!
