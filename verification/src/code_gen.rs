//! Checks that feed code generation: before a field-name mapping is
//! finalized, no field may reuse a name that was retired in an earlier
//! version of the schema.

use vstd::prelude::*;

use crate::types::Field;

verus! {

/// True when some string in `s` spells `x`.
pub open spec fn spec_has_str(s: Seq<String>, x: Seq<char>) -> bool {
    exists|i: int| 0 <= i < s.len() && #[trigger] s[i]@ == x
}

/// True when some field in `fields` is named `x`.
pub open spec fn spec_has_field_named(fields: Seq<(String, Field)>, x: Seq<char>) -> bool {
    exists|i: int| 0 <= i < fields.len() && #[trigger] fields[i].0@ == x
}

/// A string found in a sequence is still found after a push.
pub(crate) proof fn lemma_has_str_push(s: Seq<String>, x: String, y: Seq<char>)
    requires
        spec_has_str(s, y),
    ensures
        spec_has_str(s.push(x), y),
{
    let i = choose|i: int| 0 <= i < s.len() && #[trigger] s[i]@ == y;
    assert(s.push(x)[i]@ == y);
}

/// True when some string in `v` spells the same characters as `x`.
fn vec_has_str(v: &Vec<String>, x: &String) -> (r: bool)
    ensures
        r == spec_has_str(v@, x@),
{
    let mut i: usize = 0;
    while i < v.len()
        invariant
            i <= v@.len(),
            forall|j: int| 0 <= j < i ==> #[trigger] v@[j]@ != x@,
        decreases v@.len() - i,
    {
        if v[i] == *x {
            return true;
        }
        i += 1;
    }
    false
}

/// Collects the field names that appear in the retired-names set: each such
/// name once, in the order the fields first use it. An empty result means
/// the mapping is clean and code generation may proceed.
pub fn _check_for_retired_names(
    retired_names: &Vec<String>,
    fields_by_name: &Vec<(String, Field)>,
) -> (violations: Vec<String>)
    ensures
        forall|k: int|
            0 <= k < violations@.len() ==> spec_has_field_named(
                fields_by_name@,
                #[trigger] violations@[k]@,
            ) && spec_has_str(retired_names@, violations@[k]@),
        forall|i: int|
            0 <= i < fields_by_name@.len() && spec_has_str(
                retired_names@,
                #[trigger] fields_by_name@[i].0@,
            ) ==> spec_has_str(violations@, fields_by_name@[i].0@),
        forall|k: int, l: int|
            0 <= k < l < violations@.len() ==> violations@[k]@ != violations@[l]@,
{
    let mut violations: Vec<String> = Vec::new();
    let mut i: usize = 0;
    while i < fields_by_name.len()
        invariant
            i <= fields_by_name@.len(),
            forall|k: int|
                0 <= k < violations@.len() ==> spec_has_field_named(
                    fields_by_name@,
                    #[trigger] violations@[k]@,
                ) && spec_has_str(retired_names@, violations@[k]@),
            forall|j: int|
                0 <= j < i && spec_has_str(
                    retired_names@,
                    #[trigger] fields_by_name@[j].0@,
                ) ==> spec_has_str(violations@, fields_by_name@[j].0@),
            forall|k: int, l: int|
                0 <= k < l < violations@.len() ==> violations@[k]@ != violations@[l]@,
        decreases fields_by_name@.len() - i,
    {
        let name: &String = &fields_by_name[i].0;
        if vec_has_str(retired_names, name) && !vec_has_str(&violations, name) {
            let ghost before: Seq<String> = violations@;
            let ghost pushed: String = fields_by_name@[i as int].0;
            violations.push(name.clone());
            proof {
                assert(violations@ =~= before.push(violations@[before.len() as int]));
                assert(violations@[violations@.len() - 1]@ == fields_by_name@[i as int].0@);
                assert forall|k: int| 0 <= k < violations@.len() implies spec_has_field_named(
                    fields_by_name@,
                    #[trigger] violations@[k]@,
                ) && spec_has_str(retired_names@, violations@[k]@) by {
                    if k < before.len() {
                        assert(violations@[k]@ == before[k]@);
                    } else {
                        assert(spec_has_field_named(fields_by_name@, violations@[k]@));
                    }
                }
                assert forall|j: int|
                    0 <= j <= i && spec_has_str(
                        retired_names@,
                        #[trigger] fields_by_name@[j].0@,
                    ) implies spec_has_str(violations@, fields_by_name@[j].0@) by {
                    if j < i {
                        lemma_has_str_push(
                            before,
                            violations@[before.len() as int],
                            fields_by_name@[j].0@,
                        );
                    } else {
                        assert(violations@[violations@.len() - 1]@ == fields_by_name@[j].0@);
                    }
                }
            }
        }
        i += 1;
    }
    violations
}

} // verus!
