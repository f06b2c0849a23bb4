//! Files that more than one worker edited, read as `std::path::Path` reads
//! them, without normalising.
use vstd::prelude::*;
use crate::execution_graph::types::strs_view;
use crate::text::{seq_lt, str_eq};
use super::paths::{key_equal, pieces, dot, dot_dot, is_absolute, scan};
use super::sorting::{keys_view, sorted_distinct, sorted_keys};
use super::types::{Conflict, FileEdit};

verus! {

/// Component tags, in the order `std::path::Component` sorts: the root,
/// then `.`, then `..`, then names.
pub open spec fn root_tag() -> Seq<char> {
    seq!['\u{0}']
}

pub open spec fn cur_tag() -> Seq<char> {
    seq!['\u{1}']
}

pub open spec fn parent_tag() -> Seq<char> {
    seq!['\u{2}']
}

pub open spec fn name_tag(n: Seq<char>) -> Seq<char> {
    seq!['\u{3}'] + n
}

/// The components of the first `n` pieces: empty pieces and `.` vanish,
/// `..` stays.
pub open spec fn raw_parts(ps: Seq<Seq<char>>, n: int) -> Seq<Seq<char>>
    decreases n,
{
    if n <= 0 {
        Seq::empty()
    } else {
        let p = ps[n - 1];
        let before = raw_parts(ps, n - 1);
        if p.len() == 0 || p == dot() {
            before
        } else if p == dot_dot() {
            before.push(parent_tag())
        } else {
            before.push(name_tag(p))
        }
    }
}

/// A relative path that begins with `.` as its own component.
pub open spec fn leading_cur(s: Seq<char>) -> bool {
    !is_absolute(s) && s.len() > 0 && s[0] == '.' && (s.len() == 1 || s[1] == '/')
}

/// The path's components as tagged text; equal lists mean equal paths, and
/// their order is the order of paths.
pub open spec fn raw_key(s: Seq<char>) -> Seq<Seq<char>> {
    (if is_absolute(s) {
        seq![root_tag()]
    } else {
        Seq::empty()
    }) + (if leading_cur(s) {
        seq![cur_tag()]
    } else {
        Seq::empty()
    }) + raw_parts(pieces(s), pieces(s).len() as int)
}

fn tag(c: char) -> (s: String)
    ensures
        s@ == seq![c],
{
    let mut v: Vec<char> = Vec::new();
    v.push(c);
    proof {
        assert(v@ =~= seq![c]);
    }
    crate::text::string_of(&v)
}

fn raw_key_of(s: &str) -> (k: Vec<String>)
    ensures
        strs_view(k@) == raw_key(s@),
{
    let cs = crate::text::chars_of(s);
    let mut out: Vec<String> = Vec::new();
    let absolute = cs.len() > 0 && cs[0] == '/';
    if absolute {
        out.push(tag('\u{0}'));
    }
    let cur = !absolute && cs.len() > 0 && cs[0] == '.' && (cs.len() == 1 || cs[1] == '/');
    if cur {
        out.push(tag('\u{1}'));
    }
    let ghost head = strs_view(out@);
    proof {
        assert(head =~= (if is_absolute(s@) {
            seq![root_tag()]
        } else {
            Seq::empty()
        }) + (if leading_cur(s@) {
            seq![cur_tag()]
        } else {
            Seq::empty()
        }));
        assert(s@.take(0) =~= Seq::<char>::empty());
    }
    let mut piece: Vec<char> = Vec::new();
    let mut i: usize = 0;
    while i < cs.len()
        invariant
            i <= cs.len(),
            cs@ == s@,
            piece@ == scan(s@.take(i as int)).1,
            strs_view(out@) == head + raw_parts(scan(s@.take(i as int)).0, scan(s@.take(i as int)).0.len() as int),
        decreases cs.len() - i,
    {
        proof {
            assert(s@.take(i + 1).drop_last() =~= s@.take(i as int));
        }
        if cs[i] == '/' {
            let ghost ps = scan(s@.take(i as int)).0;
            push_part(&mut out, &piece, Ghost(head), Ghost(ps));
            piece = Vec::new();
        } else {
            piece.push(cs[i]);
        }
        i += 1;
    }
    proof {
        assert(s@.take(cs.len() as int) =~= s@);
    }
    let ghost ps = scan(s@).0;
    push_part(&mut out, &piece, Ghost(head), Ghost(ps));
    out
}

/// Appends the component a finished piece contributes.
fn push_part(out: &mut Vec<String>, piece: &Vec<char>, Ghost(head): Ghost<Seq<Seq<char>>>, Ghost(ps): Ghost<Seq<Seq<char>>>)
    requires
        strs_view(old(out)@) == head + raw_parts(ps, ps.len() as int),
    ensures
        strs_view(final(out)@) == head + raw_parts(ps.push(piece@), (ps.len() + 1) as int),
{
    let ghost nps = ps.push(piece@);
    proof {
        assert(nps.drop_last() =~= ps);
        lemma_raw_parts_prefix(ps, piece@, ps.len() as int);
    }
    let is_dd = piece.len() == 2 && piece[0] == '.' && piece[1] == '.';
    let is_d = piece.len() == 1 && piece[0] == '.';
    proof {
        if piece@ == dot_dot() {
            assert(piece@[0] == '.' && piece@[1] == '.');
        }
        if is_dd {
            assert(piece@ =~= dot_dot());
        }
        if piece@ == dot() {
            assert(piece@[0] == '.');
        }
        if is_d {
            assert(piece@ =~= dot());
        }
    }
    let ghost before = strs_view(out@);
    if piece.len() == 0 || is_d {
    } else if is_dd {
        out.push(tag('\u{2}'));
        proof {
            assert(strs_view(out@) =~= before.push(parent_tag()));
        }
    } else {
        let mut tagged: Vec<char> = Vec::new();
        tagged.push('\u{3}');
        let mut k: usize = 0;
        while k < piece.len()
            invariant
                k <= piece.len(),
                tagged@ =~= seq!['\u{3}'] + piece@.take(k as int),
            decreases piece.len() - k,
        {
            tagged.push(piece[k]);
            proof {
                assert(piece@.take(k + 1) =~= piece@.take(k as int).push(piece@[k as int]));
            }
            k += 1;
        }
        proof {
            assert(piece@.take(piece.len() as int) =~= piece@);
        }
        out.push(crate::text::string_of(&tagged));
        proof {
            assert(strs_view(out@) =~= before.push(name_tag(piece@)));
        }
    }
}

proof fn lemma_raw_parts_prefix(ps: Seq<Seq<char>>, p: Seq<char>, n: int)
    requires
        0 <= n <= ps.len(),
    ensures
        raw_parts(ps.push(p), n) == raw_parts(ps, n),
    decreases n,
{
    if n > 0 {
        lemma_raw_parts_prefix(ps, p, n - 1);
        assert(ps.push(p)[n - 1] == ps[n - 1]);
    }
}

pub open spec fn edit_keys(edits: Seq<FileEdit>) -> Seq<Seq<Seq<char>>> {
    edits.map_values(|e: FileEdit| raw_key(e.path@))
}

/// The workers that edited the path, as one-name keys.
pub open spec fn editors(edits: Seq<FileEdit>, k: Seq<Seq<char>>, n: int) -> Seq<Seq<Seq<char>>>
    decreases n,
{
    if n <= 0 {
        Seq::empty()
    } else if raw_key(edits[n - 1].path@) == k {
        editors(edits, k, n - 1).push(seq![edits[n - 1].worker@])
    } else {
        editors(edits, k, n - 1)
    }
}

/// The path as first written among the edits of it.
pub open spec fn first_written(edits: Seq<FileEdit>, k: Seq<Seq<char>>) -> Seq<char> {
    edits[choose|i: int| 0 <= i < edits.len() && raw_key(#[trigger] edits[i].path@) == k
        && forall|j: int| 0 <= j < i ==> raw_key(edits[j].path@) != k].path@
}

pub open spec fn worker_set(edits: Seq<FileEdit>, k: Seq<Seq<char>>) -> Seq<Seq<char>> {
    sorted_keys(editors(edits, k, edits.len() as int)).map_values(|x: Seq<Seq<char>>| x[0])
}

/// The edited paths, in path order, that more than one worker edited.
pub open spec fn contested(edits: Seq<FileEdit>, ks: Seq<Seq<Seq<char>>>, n: int) -> Seq<Seq<Seq<char>>>
    decreases n,
{
    if n <= 0 {
        Seq::empty()
    } else if worker_set(edits, ks[n - 1]).len() > 1 {
        contested(edits, ks, n - 1).push(ks[n - 1])
    } else {
        contested(edits, ks, n - 1)
    }
}

/// The conflicts reported: each contested path once, in path order, as
/// first written, with its editors without repeats in name order.
pub open spec fn conflicts_reported(edits: Seq<FileEdit>, out: Seq<Conflict>) -> bool {
    let ks = sorted_keys(edit_keys(edits));
    let cs = contested(edits, ks, ks.len() as int);
    &&& out.len() == cs.len()
    &&& forall|i: int|
        0 <= i < cs.len() ==> {
            &&& (#[trigger] out[i]).file@ == first_written(edits, cs[i])
            &&& strs_view(out[i].workers@) == worker_set(edits, cs[i])
        }
}

/// Files edited by more than one worker.
pub fn detect_conflicts(edits: &Vec<FileEdit>) -> (r: Vec<Conflict>)
    ensures
        conflicts_reported(edits@, r@),
{
    let mut keys: Vec<Vec<String>> = Vec::new();
    let mut i: usize = 0;
    while i < edits.len()
        invariant
            i <= edits.len(),
            keys@.len() == i,
            forall|q: int| 0 <= q < i ==> strs_view((#[trigger] keys@[q])@) == raw_key(edits@[q].path@),
        decreases edits.len() - i,
    {
        keys.push(raw_key_of(edits[i].path.as_str()));
        i += 1;
    }
    proof {
        assert(keys_view(keys@) =~= edit_keys(edits@));
    }
    let sorted = sorted_distinct(&keys);
    let ghost ks = keys_view(sorted@);
    let mut out: Vec<Conflict> = Vec::new();
    let ghost mut cs: Seq<Seq<Seq<char>>> = Seq::empty();
    let mut j: usize = 0;
    while j < sorted.len()
        invariant
            j <= sorted.len(),
            ks == keys_view(sorted@),
            ks == sorted_keys(edit_keys(edits@)),
            keys@.len() == edits@.len(),
            forall|q: int| 0 <= q < edits@.len() ==> strs_view((#[trigger] keys@[q])@) == raw_key(edits@[q].path@),
            forall|x: Seq<Seq<char>>| ks.contains(x) <==> edit_keys(edits@).contains(x),
            cs == contested(edits@, ks, j as int),
            out@.len() == cs.len(),
            forall|q: int|
                0 <= q < cs.len() ==> {
                    &&& (#[trigger] out@[q]).file@ == first_written(edits@, cs[q])
                    &&& strs_view(out@[q].workers@) == worker_set(edits@, cs[q])
                },
        decreases sorted.len() - j,
    {
        let ghost k = ks[j as int];
        proof {
            assert(k == strs_view(sorted@[j as int]@));
        }
        let mut named: Vec<Vec<String>> = Vec::new();
        let mut first: Option<usize> = None;
        let mut t: usize = 0;
        while t < edits.len()
            invariant
                t <= edits.len(),
                keys@.len() == edits@.len(),
                forall|q: int| 0 <= q < edits@.len() ==> strs_view((#[trigger] keys@[q])@) == raw_key(edits@[q].path@),
                k == strs_view(sorted@[j as int]@),
                j < sorted@.len(),
                keys_view(named@) == editors(edits@, k, t as int),
                match first {
                    Some(f) => f < t && raw_key(edits@[f as int].path@) == k && forall|q: int|
                        0 <= q < f ==> raw_key(edits@[q].path@) != k,
                    None => forall|q: int| 0 <= q < t ==> raw_key(edits@[q].path@) != k,
                },
            decreases edits.len() - t,
        {
            let ghost before = keys_view(named@);
            if key_equal(&keys[t], &sorted[j]) {
                let mut one: Vec<String> = Vec::new();
                one.push(edits[t].worker.clone());
                named.push(one);
                proof {
                    assert(strs_view(named@[before.len() as int]@) =~= seq![edits@[t as int].worker@]);
                    assert(keys_view(named@) =~= before.push(seq![edits@[t as int].worker@]));
                }
                if first.is_none() {
                    first = Some(t);
                }
            }
            t += 1;
        }
        let distinct = sorted_distinct(&named);
        let ghost dv = keys_view(distinct@);
        proof {
            assert forall|q: int| 0 <= q < dv.len() implies (#[trigger] dv[q]).len() == 1 by {
                assert(dv.contains(dv[q]));
                let nv = keys_view(named@);
                let p = choose|p: int| 0 <= p < nv.len() && nv[p] == dv[q];
                lemma_editors_singletons(edits@, k, edits@.len() as int, p);
            }
        }
        if distinct.len() > 1 {
            let mut workers: Vec<String> = Vec::new();
            let mut u: usize = 0;
            while u < distinct.len()
                invariant
                    u <= distinct.len(),
                    dv == keys_view(distinct@),
                    forall|q: int| 0 <= q < dv.len() ==> (#[trigger] dv[q]).len() == 1,
                    workers@.len() == u,
                    forall|q: int| 0 <= q < u ==> (#[trigger] workers@[q])@ == dv[q][0],
                decreases distinct.len() - u,
            {
                proof {
                    assert(dv[u as int] == strs_view(distinct@[u as int]@));
                }
                workers.push(distinct[u][0].clone());
                u += 1;
            }
            proof {
                assert(strs_view(workers@) =~= dv.map_values(|x: Seq<Seq<char>>| x[0]));
            }
            let f = match first {
                Some(f) => f,
                None => {
                    proof {
                        assert(ks.contains(k));
                        assert(edit_keys(edits@).contains(k));
                        let q = choose|q: int| 0 <= q < edit_keys(edits@).len() && edit_keys(edits@)[q] == k;
                        assert(raw_key(edits@[q].path@) == k);
                    }
                    0
                },
            };
            proof {
                let c = choose|c: int| 0 <= c < edits@.len() && raw_key(#[trigger] edits@[c].path@) == k
                    && forall|q: int| 0 <= q < c ==> raw_key(edits@[q].path@) != k;
                assert(raw_key(edits@[f as int].path@) == k);
                if c < f {
                    assert(raw_key(edits@[c].path@) != k);
                }
                if c > f {
                    assert(raw_key(edits@[f as int].path@) != k);
                }
            }
            out.push(Conflict { file: edits[f].path.clone(), workers });
            proof {
                cs = cs.push(k);
            }
        }
        j += 1;
    }
    out
}

proof fn lemma_editors_singletons(edits: Seq<FileEdit>, k: Seq<Seq<char>>, n: int, p: int)
    requires
        0 <= p < editors(edits, k, n).len(),
    ensures
        editors(edits, k, n)[p].len() == 1,
    decreases n,
{
    if n > 0 {
        if raw_key(edits[n - 1].path@) == k {
            if p < editors(edits, k, n - 1).len() {
                lemma_editors_singletons(edits, k, n - 1, p);
            }
        } else {
            lemma_editors_singletons(edits, k, n - 1, p);
        }
    }
}

} // verus!
