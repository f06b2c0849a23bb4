//! What the loop reads from a tool call's JSON arguments: the shell command
//! a verification check ran, and the files a mutation changed.
use vstd::prelude::*;
use crate::execution_graph::types::strs_view;
use crate::llm::ToolCall;
use crate::text::str_eq;

verus! {

/// The string under `key` in the JSON object `text`, as `serde_json` reads
/// it; none when the text is no JSON, has no such key or holds no string
/// there.
pub uninterp spec fn json_str_field(text: Seq<char>, key: Seq<char>) -> Option<Seq<char>>;

/// The items of the array under `key` in the JSON object `text`, each the
/// string it holds, if it holds one; none when the text is no JSON or holds
/// no array there.
pub uninterp spec fn json_str_items(text: Seq<char>, key: Seq<char>) -> Option<Seq<Option<Seq<char>>>>;

pub open spec fn opt_view(o: Option<String>) -> Option<Seq<char>> {
    match o {
        Some(s) => Some(s@),
        None => None,
    }
}

pub open spec fn opts_view(v: Seq<Option<String>>) -> Seq<Option<Seq<char>>> {
    v.map_values(|o: Option<String>| opt_view(o))
}

/// `serde_json::from_str::<Value>`, then `Value::get` with the key and
/// `Value::as_str`. The contract names the result, a function of the text
/// and the key alone.
#[verifier::external_body]
fn json_string_field(text: &str, key: &str) -> (r: Option<String>)
    ensures
        opt_view(r) == json_str_field(text@, key@),
{
    serde_json::from_str::<serde_json::Value>(text).ok().and_then(
        |value| value.get(key).and_then(|item| item.as_str()).map(str::to_string),
    )
}

/// `serde_json::from_str::<Value>`, then `Value::get` with the key,
/// `Value::as_array`, and `Value::as_str` on each item. The contract names
/// the result, a function of the text and the key alone.
#[verifier::external_body]
fn json_string_items(text: &str, key: &str) -> (r: Option<Vec<Option<String>>>)
    ensures
        match r {
            Some(v) => json_str_items(text@, key@) == Some(opts_view(v@)),
            None => json_str_items(text@, key@) is None,
        },
{
    serde_json::from_str::<serde_json::Value>(text).ok().and_then(
        |value| value.get(key).and_then(|item| item.as_array()).map(
            |items| items.iter().map(|item| item.as_str().map(str::to_string)).collect(),
        ),
    )
}

/// The command a shell tool call runs, read from its JSON arguments; other
/// tools run none.
pub open spec fn command_text_of(name: Seq<char>, arguments: Seq<char>) -> Option<Seq<char>> {
    if name == "shell"@ {
        json_str_field(arguments, "command"@)
    } else {
        None
    }
}

pub fn verification_command_text(tc: &ToolCall) -> (r: Option<String>)
    ensures
        opt_view(r) == command_text_of(tc.function.name@, tc.function.arguments@),
{
    if str_eq(tc.function.name.as_str(), "shell") {
        json_string_field(tc.function.arguments.as_str(), "command")
    } else {
        None
    }
}

/// The keys under which a tool names a single file it changed, in the
/// order they are read.
pub open spec fn path_keys() -> Seq<Seq<char>> {
    seq!["path"@, "file"@, "file_path"@, "target"@, "target_path"@]
}

/// The strings among the items.
pub open spec fn strings_of(items: Seq<Option<Seq<char>>>) -> Seq<Seq<char>>
    decreases items.len(),
{
    if items.len() == 0 {
        Seq::empty()
    } else {
        let rest = strings_of(items.drop_last());
        match items.last() {
            Some(s) => rest.push(s),
            None => rest,
        }
    }
}

/// The files named by the single-file fields, in key order, then by the
/// strings in the `paths` array.
pub open spec fn paths_from(fields: Seq<Option<Seq<char>>>, items: Option<Seq<Option<Seq<char>>>>) -> Seq<Seq<char>> {
    strings_of(fields) + match items {
        Some(v) => strings_of(v),
        None => Seq::empty(),
    }
}

/// The files a tool call changed: the argument text itself when it names
/// an existing file; otherwise the strings under the single-file keys, in
/// key order, then the strings in the `paths` array.
pub open spec fn changed_paths_of(arguments: Seq<char>, names_existing_file: bool) -> Seq<Seq<char>> {
    if names_existing_file {
        seq![arguments]
    } else {
        paths_from(
            Seq::new(5, |i: int| json_str_field(arguments, path_keys()[i])),
            json_str_items(arguments, "paths"@),
        )
    }
}

fn push_strings(paths: &mut Vec<String>, items: &Vec<Option<String>>)
    ensures
        strs_view(final(paths)@) == strs_view(old(paths)@) + strings_of(opts_view(items@)),
{
    let ghost head = strs_view(paths@);
    let mut i: usize = 0;
    while i < items.len()
        invariant
            i <= items@.len(),
            strs_view(paths@) == head + strings_of(opts_view(items@).take(i as int)),
        decreases items.len() - i,
    {
        let ghost before = strs_view(paths@);
        let ghost t = opts_view(items@).take(i + 1);
        proof {
            assert(t.drop_last() =~= opts_view(items@).take(i as int));
            assert(t.last() == opt_view(items@[i as int]));
        }
        match &items[i] {
            Some(p) => {
                let c = p.clone();
                paths.push(c);
                proof {
                    assert(strs_view(paths@) =~= before.push(c@));
                    assert(strs_view(paths@) =~= head + strings_of(t));
                }
            },
            None => {
                proof {
                    assert(strs_view(paths@) =~= head + strings_of(t));
                }
            },
        }
        i += 1;
    }
    proof {
        assert(opts_view(items@).take(items@.len() as int) =~= opts_view(items@));
    }
}

/// The changed files from what was read under each single-file key and
/// from the `paths` array.
pub fn paths_from_fields(fields: &Vec<Option<String>>, items: &Option<Vec<Option<String>>>) -> (r: Vec<String>)
    ensures
        strs_view(r@) == paths_from(
            opts_view(fields@),
            match items {
                Some(v) => Some(opts_view(v@)),
                None => None,
            },
        ),
{
    let mut paths: Vec<String> = Vec::new();
    proof {
        assert(strs_view(paths@) =~= Seq::<Seq<char>>::empty());
    }
    push_strings(&mut paths, fields);
    match items {
        Some(v) => {
            push_strings(&mut paths, v);
        },
        None => {
            proof {
                assert(strs_view(paths@) =~= strings_of(opts_view(fields@)) + Seq::<Seq<char>>::empty());
            }
        },
    }
    paths
}

/// Lists the files a tool call changed. Whether the argument text names an
/// existing file is asked of the file system by the caller.
pub fn changed_paths_from_tool_args(arguments: &str, names_existing_file: bool) -> (r: Vec<String>)
    ensures
        strs_view(r@) == changed_paths_of(arguments@, names_existing_file),
{
    if names_existing_file {
        let mut paths: Vec<String> = Vec::new();
        paths.push(arguments.to_owned());
        proof {
            assert(strs_view(paths@) =~= seq![arguments@]);
        }
        return paths;
    }
    let keys: [&str; 5] = ["path", "file", "file_path", "target", "target_path"];
    let ghost want = Seq::new(5, |i: int| json_str_field(arguments@, path_keys()[i]));
    proof {
        reveal_strlit("path");
        reveal_strlit("file");
        reveal_strlit("file_path");
        reveal_strlit("target");
        reveal_strlit("target_path");
    }
    let mut fields: Vec<Option<String>> = Vec::new();
    proof {
        assert(opts_view(fields@) =~= want.take(0));
    }
    let mut k: usize = 0;
    while k < 5
        invariant
            k <= 5,
            keys@ == seq!["path", "file", "file_path", "target", "target_path"],
            want == Seq::new(5, |i: int| json_str_field(arguments@, path_keys()[i])),
            fields@.len() == k,
            opts_view(fields@) == want.take(k as int),
        decreases 5 - k,
    {
        let key = keys[k];
        proof {
            assert(key@ == path_keys()[k as int]);
        }
        let f = json_string_field(arguments, key);
        let ghost fv = opt_view(f);
        let ghost prev = fields@;
        fields.push(f);
        proof {
            assert(fv == want[k as int]);
            assert(fields@ == prev.push(f));
            assert forall|j: int| 0 <= j < k + 1 implies opts_view(fields@)[j] == want.take(k + 1)[j] by {
                if j < k {
                    assert(fields@[j] == prev[j]);
                    assert(opts_view(prev)[j] == want.take(k as int)[j]);
                }
            }
            assert(opts_view(fields@) =~= want.take(k + 1));
        }
        k += 1;
    }
    proof {
        assert(want.take(5) =~= want);
    }
    let items = json_string_items(arguments, "paths");
    paths_from_fields(&fields, &items)
}

} // verus!
