//! The exact shape a worker's submitted operations must have before they
//! are read as patch operations: known operation types, and no field the
//! type does not define.
use vstd::prelude::*;
use crate::execution_graph::types::strs_view;
use crate::text::{decimal, decimal_string, join2, join3, str_eq};

verus! {

/// What the shape check reads of one submitted edit of a multi-replace.
#[derive(Debug, Clone, PartialEq, Eq)]
pub struct EditShape {
    pub is_object: bool,
    /// The edit's field names, in the order the JSON object lists them.
    pub keys: Vec<String>,
}

/// What the shape check reads of one submitted operation.
#[derive(Debug, Clone, PartialEq, Eq)]
pub struct OperationShape {
    pub is_object: bool,
    /// The `type` field, when it is a string.
    pub op_type: Option<String>,
    /// The field names, in the order the JSON object lists them.
    pub keys: Vec<String>,
    /// The `edits` field, when it is an array.
    pub edits: Option<Vec<EditShape>>,
}

pub open spec fn allowed_fields(op_type: Seq<char>) -> Option<Seq<Seq<char>>> {
    if op_type == "replace"@ {
        Some(seq!["type"@, "path"@, "old_text"@, "new_text"@, "replace_all"@])
    } else if op_type == "multi_replace"@ {
        Some(seq!["type"@, "path"@, "edits"@])
    } else if op_type == "write_file"@ {
        Some(seq!["type"@, "path"@, "content"@, "allow_create"@, "encoding"@, "line_ending"@])
    } else {
        None
    }
}

pub open spec fn edit_fields() -> Seq<Seq<char>> {
    seq!["old_text"@, "new_text"@, "replace_all"@]
}

/// The first key not in `allowed`, if any.
pub open spec fn first_unknown(keys: Seq<Seq<char>>, allowed: Seq<Seq<char>>) -> Option<Seq<char>>
    decreases keys.len(),
{
    if keys.len() == 0 {
        None
    } else if !allowed.contains(keys[0]) {
        Some(keys[0])
    } else {
        first_unknown(keys.drop_first(), allowed)
    }
}

pub open spec fn op_label(i: nat) -> Seq<char> {
    "operations["@ + decimal(i) + "]"@
}

/// The first problem among the edits of operation `i`, from edit `j` on.
pub open spec fn edits_problem(i: nat, edits: Seq<EditShape>, j: nat) -> Option<Seq<char>>
    decreases edits.len() - j,
{
    if j >= edits.len() {
        None
    } else {
        let e = edits[j as int];
        let label = op_label(i) + ".edits["@ + decimal(j) + "]"@;
        if !e.is_object {
            Some(label + " must be an object"@)
        } else {
            match first_unknown(strs_view(e.keys@), edit_fields()) {
                Some(k) => Some(label + " contains unknown field '"@ + k + "'"@),
                None => edits_problem(i, edits, j + 1),
            }
        }
    }
}

/// The problem with operation `i`, if any, checked in order: an object, a
/// string type, a known type, only that type's fields, and for a
/// multi-replace an array of edits that are objects with only edit fields.
pub open spec fn operation_problem(i: nat, op: OperationShape) -> Option<Seq<char>> {
    if !op.is_object {
        Some(op_label(i) + " must be an object"@)
    } else {
        match op.op_type {
            None => Some(op_label(i) + ".type must be a string"@),
            Some(t) => match allowed_fields(t@) {
                None => Some(op_label(i) + " has unknown type '"@ + t@ + "'"@),
                Some(allowed) => match first_unknown(strs_view(op.keys@), allowed) {
                    Some(k) => Some(op_label(i) + " contains unknown field '"@ + k + "'"@),
                    None => if t@ == "multi_replace"@ {
                        match op.edits {
                            None => Some(op_label(i) + ".edits must be an array"@),
                            Some(es) => edits_problem(i, es@, 0),
                        }
                    } else {
                        None
                    },
                },
            },
        }
    }
}

/// The first problem of the operations from index `i` on.
pub open spec fn operations_problem(ops: Seq<OperationShape>, i: nat) -> Option<Seq<char>>
    decreases ops.len() - i,
{
    if i >= ops.len() {
        None
    } else {
        match operation_problem(i, ops[i as int]) {
            Some(p) => Some(p),
            None => operations_problem(ops, i + 1),
        }
    }
}

fn first_unknown_key(keys: &Vec<String>, allowed: &Vec<&str>) -> (r: Option<String>)
    ensures
        crate::execution_graph::types::opt_view(r) == first_unknown(
            strs_view(keys@),
            allowed@.map_values(|a: &str| a@),
        ),
{
    let ghost av = allowed@.map_values(|a: &str| a@);
    let ghost ks = strs_view(keys@);
    let mut i: usize = 0;
    proof {
        assert(ks.subrange(0, ks.len() as int) =~= ks);
    }
    while i < keys.len()
        invariant
            i <= keys@.len(),
            ks == strs_view(keys@),
            av == allowed@.map_values(|a: &str| a@),
            first_unknown(ks, av) == first_unknown(ks.subrange(i as int, ks.len() as int), av),
        decreases keys@.len() - i,
    {
        let tail = Ghost(ks.subrange(i as int, ks.len() as int));
        proof {
            assert(tail@[0] == keys@[i as int]@);
            assert(tail@.drop_first() =~= ks.subrange(i + 1, ks.len() as int));
        }
        let mut found = false;
        let mut j: usize = 0;
        while j < allowed.len()
            invariant
                j <= allowed@.len(),
                i < keys@.len(),
                av == allowed@.map_values(|a: &str| a@),
                found == exists|q: int| 0 <= q < j && av[q] == keys@[i as int]@,
            decreases allowed@.len() - j,
        {
            proof {
                assert(av[j as int] == allowed@[j as int]@);
            }
            if str_eq(allowed[j], keys[i].as_str()) {
                found = true;
            }
            j += 1;
        }
        proof {
            if found {
                let q = choose|q: int| 0 <= q < allowed@.len() && av[q] == keys@[i as int]@;
                assert(av.contains(keys@[i as int]@));
            } else {
                assert(!av.contains(keys@[i as int]@)) by {
                    if av.contains(keys@[i as int]@) {
                        let q = choose|q: int| 0 <= q < av.len() && av[q] == keys@[i as int]@;
                        assert(av[q] == keys@[i as int]@);
                    }
                }
            }
        }
        if !found {
            return Some(keys[i].clone());
        }
        i += 1;
    }
    None
}

fn allowed_for(op_type: &str) -> (r: Option<Vec<&'static str>>)
    ensures
        match r {
            Some(v) => allowed_fields(op_type@) == Some(v@.map_values(|a: &str| a@)),
            None => allowed_fields(op_type@) is None,
        },
{
    if str_eq(op_type, "replace") {
        let v = vec!["type", "path", "old_text", "new_text", "replace_all"];
        proof {
            assert(v@.map_values(|a: &str| a@) =~= seq!["type"@, "path"@, "old_text"@, "new_text"@, "replace_all"@]);
        }
        Some(v)
    } else if str_eq(op_type, "multi_replace") {
        let v = vec!["type", "path", "edits"];
        proof {
            assert(v@.map_values(|a: &str| a@) =~= seq!["type"@, "path"@, "edits"@]);
        }
        Some(v)
    } else if str_eq(op_type, "write_file") {
        let v = vec!["type", "path", "content", "allow_create", "encoding", "line_ending"];
        proof {
            assert(v@.map_values(|a: &str| a@) =~= seq![
                "type"@,
                "path"@,
                "content"@,
                "allow_create"@,
                "encoding"@,
                "line_ending"@,
            ]);
        }
        Some(v)
    } else {
        None
    }
}

fn check_edits(i: usize, edits: &Vec<EditShape>) -> (r: Option<String>)
    ensures
        crate::execution_graph::types::opt_view(r) == edits_problem(i as nat, edits@, 0),
{
    let fields = vec!["old_text", "new_text", "replace_all"];
    proof {
        assert(fields@.map_values(|a: &str| a@) =~= edit_fields());
    }
    let mut j: usize = 0;
    while j < edits.len()
        invariant
            j <= edits@.len(),
            fields@.map_values(|a: &str| a@) == edit_fields(),
            edits_problem(i as nat, edits@, 0) == edits_problem(i as nat, edits@, j as nat),
        decreases edits@.len() - j,
    {
        let opl = join3("operations[", decimal_string(i as u64).as_str(), "]");
        let label = join3(join2(opl.as_str(), ".edits[").as_str(), decimal_string(j as u64).as_str(), "]");
        proof {
            assert(label@ =~= op_label(i as nat) + ".edits["@ + decimal(j as nat) + "]"@);
        }
        if !edits[j].is_object {
            return Some(join2(label.as_str(), " must be an object"));
        }
        match first_unknown_key(&edits[j].keys, &fields) {
            Some(k) => {
                return Some(join3(join2(label.as_str(), " contains unknown field '").as_str(), k.as_str(), "'"));
            },
            None => {},
        }
        j += 1;
    }
    None
}

fn check_operation(i: usize, op: &OperationShape) -> (r: Option<String>)
    ensures
        crate::execution_graph::types::opt_view(r) == operation_problem(i as nat, *op),
{
    let label = join3("operations[", decimal_string(i as u64).as_str(), "]");
    if !op.is_object {
        return Some(join2(label.as_str(), " must be an object"));
    }
    let t = match &op.op_type {
        None => {
            return Some(join2(label.as_str(), ".type must be a string"));
        },
        Some(t) => t,
    };
    let allowed = match allowed_for(t.as_str()) {
        None => {
            return Some(join3(join2(label.as_str(), " has unknown type '").as_str(), t.as_str(), "'"));
        },
        Some(a) => a,
    };
    match first_unknown_key(&op.keys, &allowed) {
        Some(k) => {
            return Some(join3(join2(label.as_str(), " contains unknown field '").as_str(), k.as_str(), "'"));
        },
        None => {},
    }
    if !str_eq(t.as_str(), "multi_replace") {
        return None;
    }
    match &op.edits {
        None => Some(join2(label.as_str(), ".edits must be an array")),
        Some(es) => check_edits(i, es),
    }
}

/// Checks a submission's operations before they are read: `None` when the
/// submission has no `operations` array.
pub fn validate_patch_submission_shape(operations: Option<&Vec<OperationShape>>) -> (r: Result<(), String>)
    ensures
        operations is None ==> (r matches Err(e) && e@ == "operations must be an array"@),
        operations matches Some(v) ==> match operations_problem(v@, 0) {
            Some(p) => r matches Err(e) && e@ == p,
            None => r is Ok,
        },
{
    let ops = match operations {
        None => {
            return Err("operations must be an array".to_owned());
        },
        Some(v) => v,
    };
    let mut i: usize = 0;
    while i < ops.len()
        invariant
            i <= ops@.len(),
            operations matches Some(v) && v@ == ops@,
            operations_problem(ops@, 0) == operations_problem(ops@, i as nat),
        decreases ops@.len() - i,
    {
        match check_operation(i, &ops[i]) {
            Some(p) => {
                proof {
                    assert(operations_problem(ops@, i as nat) == Some(p@));
                }
                return Err(p);
            },
            None => {},
        }
        i += 1;
    }
    Ok(())
}

} // verus!
