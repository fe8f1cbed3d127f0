use vstd::prelude::*;

verus! {

// Condition and function entries of a drop are opaque JSON values: the
// interpreter carries them through unread.
#[verifier::external_type_specification]
#[verifier::external_body]
pub struct ExValue(serde_json::Value);

/// Relies on serde_json::Value's derived Clone: a deep copy, structurally
/// equal to the original value.
pub assume_specification[ <serde_json::Value as Clone>::clone ](v: &serde_json::Value) -> (r:
    serde_json::Value)
    ensures
        r == *v,
;

/// Copy of a list of opaque payload values, element for element.
pub(crate) fn clone_values(vs: &Vec<serde_json::Value>) -> (r: Vec<serde_json::Value>)
    ensures
        r@ == vs@,
{
    let mut r: Vec<serde_json::Value> = Vec::new();
    let mut i: usize = 0;
    while i < vs.len()
        invariant
            i <= vs@.len(),
            r@ == vs@.subrange(0, i as int),
        decreases vs@.len() - i,
    {
        r.push(vs[i].clone());
        proof {
            assert(vs@.subrange(0, i + 1) =~= vs@.subrange(0, i as int).push(vs@[i as int]));
        }
        i = i + 1;
    }
    proof {
        assert(vs@.subrange(0, vs@.len() as int) =~= vs@);
    }
    r
}

} // verus!
