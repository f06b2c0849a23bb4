//! Relative file paths as the ownership rules see them: `/`-separated text
//! read component by component, the way `std::path::Path` reads it on Unix.
use vstd::prelude::*;
use crate::execution_graph::types::{clone_strings, strs_view};
use crate::text::{seq_lt, str_eq, str_lt, lemma_seq_lt_irreflexive, lemma_seq_lt_total,
    lemma_seq_lt_asymmetric, lemma_seq_lt_transitive};

verus! {

/// The text between separators, read so far: finished pieces and the piece
/// being read.
pub open spec fn scan(s: Seq<char>) -> (Seq<Seq<char>>, Seq<char>)
    decreases s.len(),
{
    if s.len() == 0 {
        (Seq::empty(), Seq::empty())
    } else {
        let (ps, cur) = scan(s.drop_last());
        if s.last() == '/' {
            (ps.push(cur), Seq::empty())
        } else {
            (ps, cur.push(s.last()))
        }
    }
}

/// Every piece between separators, empty ones included.
pub open spec fn pieces(s: Seq<char>) -> Seq<Seq<char>> {
    scan(s).0.push(scan(s).1)
}

pub open spec fn dot() -> Seq<char> {
    seq!['.']
}

pub open spec fn dot_dot() -> Seq<char> {
    seq!['.', '.']
}

/// One step of normalisation: `.` and empty pieces vanish, `..` drops the
/// last kept name (nothing above the start), a name is kept.
pub open spec fn step(stack: Seq<Seq<char>>, piece: Seq<char>) -> Seq<Seq<char>> {
    if piece.len() == 0 || piece == dot() {
        stack
    } else if piece == dot_dot() {
        if stack.len() > 0 {
            stack.drop_last()
        } else {
            stack
        }
    } else {
        stack.push(piece)
    }
}

pub open spec fn stack_of(ps: Seq<Seq<char>>) -> Seq<Seq<char>>
    decreases ps.len(),
{
    if ps.len() == 0 {
        Seq::empty()
    } else {
        step(stack_of(ps.drop_last()), ps.last())
    }
}

pub open spec fn is_absolute(s: Seq<char>) -> bool {
    s.len() > 0 && s[0] == '/'
}

/// Whether some component is `..`.
pub open spec fn has_parent_piece(s: Seq<char>) -> bool {
    has_dot_dot(pieces(s))
}

pub open spec fn has_dot_dot(ps: Seq<Seq<char>>) -> bool {
    exists|i: int| 0 <= i < ps.len() && #[trigger] ps[i] == dot_dot()
}

/// The components of the normalised path: an empty first component stands
/// for the root of an absolute path, the names follow.
pub open spec fn path_key(s: Seq<char>) -> Seq<Seq<char>> {
    if is_absolute(s) {
        seq![Seq::<char>::empty()] + stack_of(pieces(s))
    } else {
        stack_of(pieces(s))
    }
}

/// Names joined by separators.
pub open spec fn joined(parts: Seq<Seq<char>>) -> Seq<char>
    decreases parts.len(),
{
    if parts.len() == 0 {
        Seq::empty()
    } else if parts.len() == 1 {
        parts[0]
    } else {
        joined(parts.drop_last()) + seq!['/'] + parts.last()
    }
}

/// The text of a path given by its components.
pub open spec fn render(key: Seq<Seq<char>>) -> Seq<char> {
    if key.len() > 0 && key[0].len() == 0 {
        seq!['/'] + joined(key.drop_first())
    } else {
        joined(key)
    }
}

/// The normalised text of a path.
pub open spec fn normalized(s: Seq<char>) -> Seq<char> {
    render(path_key(s))
}

/// A path lies under an owned path when the owned components begin it.
pub open spec fn owns(file: Seq<Seq<char>>, owned: Seq<Seq<char>>) -> bool {
    owned.len() <= file.len() && file.subrange(0, owned.len() as int) == owned
}

/// Component-wise lexicographic order, the order of `PathBuf`.
pub open spec fn key_lt(a: Seq<Seq<char>>, b: Seq<Seq<char>>) -> bool
    decreases a.len(),
{
    if a.len() == 0 {
        b.len() > 0
    } else if b.len() == 0 {
        false
    } else if a[0] != b[0] {
        seq_lt(a[0], b[0])
    } else {
        key_lt(a.drop_first(), b.drop_first())
    }
}

pub proof fn lemma_key_lt_irreflexive(a: Seq<Seq<char>>)
    ensures
        !key_lt(a, a),
    decreases a.len(),
{
    if a.len() > 0 {
        lemma_key_lt_irreflexive(a.drop_first());
    }
}

pub proof fn lemma_key_lt_total(a: Seq<Seq<char>>, b: Seq<Seq<char>>)
    ensures
        a =~= b || key_lt(a, b) || key_lt(b, a),
    decreases a.len(),
{
    if a.len() > 0 && b.len() > 0 {
        if a[0] == b[0] {
            lemma_key_lt_total(a.drop_first(), b.drop_first());
            if a.drop_first() =~= b.drop_first() {
                assert(a =~= seq![a[0]] + a.drop_first());
                assert(b =~= seq![b[0]] + b.drop_first());
            }
        } else {
            lemma_seq_lt_total(a[0], b[0]);
        }
    } else if a.len() == 0 && b.len() == 0 {
        assert(a =~= b);
    }
}

pub proof fn lemma_key_lt_asymmetric(a: Seq<Seq<char>>, b: Seq<Seq<char>>)
    ensures
        key_lt(a, b) ==> !key_lt(b, a),
    decreases a.len(),
{
    if a.len() > 0 && b.len() > 0 {
        if a[0] == b[0] {
            lemma_key_lt_asymmetric(a.drop_first(), b.drop_first());
        } else {
            lemma_seq_lt_asymmetric(a[0], b[0]);
        }
    }
}

pub proof fn lemma_key_lt_transitive(a: Seq<Seq<char>>, b: Seq<Seq<char>>, c: Seq<Seq<char>>)
    requires
        key_lt(a, b),
        key_lt(b, c),
    ensures
        key_lt(a, c),
    decreases a.len(),
{
    if a.len() > 0 && b.len() > 0 && c.len() > 0 {
        if a[0] == b[0] && b[0] == c[0] {
            lemma_key_lt_transitive(a.drop_first(), b.drop_first(), c.drop_first());
        } else if a[0] == b[0] {
            if a[0] == c[0] {
                lemma_seq_lt_asymmetric(b[0], c[0]);
            }
        } else if b[0] == c[0] {
        } else {
            lemma_seq_lt_transitive(a[0], b[0], c[0]);
            if a[0] == c[0] {
                lemma_seq_lt_asymmetric(a[0], b[0]);
            }
        }
    }
}

/// Compares two component lists.
pub fn key_less(a: &Vec<String>, b: &Vec<String>) -> (r: bool)
    ensures
        r == key_lt(strs_view(a@), strs_view(b@)),
{
    let ghost x = strs_view(a@);
    let ghost y = strs_view(b@);
    let mut i: usize = 0;
    proof {
        assert(x.skip(0) =~= x);
        assert(y.skip(0) =~= y);
    }
    while i < a.len() && i < b.len() && str_eq(a[i].as_str(), b[i].as_str())
        invariant
            i <= a.len(),
            i <= b.len(),
            x == strs_view(a@),
            y == strs_view(b@),
            key_lt(x, y) == key_lt(x.skip(i as int), y.skip(i as int)),
        decreases a.len() - i,
    {
        proof {
            assert(x.skip(i as int).drop_first() =~= x.skip(i + 1));
            assert(y.skip(i as int).drop_first() =~= y.skip(i + 1));
            assert(x.skip(i as int)[0] == x[i as int]);
            assert(y.skip(i as int)[0] == y[i as int]);
        }
        i += 1;
    }
    if i == a.len() {
        i < b.len()
    } else if i == b.len() {
        false
    } else {
        proof {
            assert(x.skip(i as int)[0] == x[i as int]);
            assert(y.skip(i as int)[0] == y[i as int]);
        }
        str_lt(a[i].as_str(), b[i].as_str())
    }
}

/// Whether two component lists are the same.
pub fn key_equal(a: &Vec<String>, b: &Vec<String>) -> (r: bool)
    ensures
        r == (strs_view(a@) == strs_view(b@)),
{
    if a.len() != b.len() {
        proof {
            assert(strs_view(a@).len() != strs_view(b@).len());
        }
        return false;
    }
    let mut i: usize = 0;
    while i < a.len()
        invariant
            i <= a.len(),
            a.len() == b.len(),
            forall|j: int| 0 <= j < i ==> a@[j]@ == b@[j]@,
        decreases a.len() - i,
    {
        if !str_eq(a[i].as_str(), b[i].as_str()) {
            proof {
                assert(strs_view(a@)[i as int] != strs_view(b@)[i as int]);
            }
            return false;
        }
        i += 1;
    }
    proof {
        assert(strs_view(a@) =~= strs_view(b@));
    }
    true
}

/// Whether the owned components begin the file's components.
pub fn key_owns(file: &Vec<String>, owned: &Vec<String>) -> (r: bool)
    ensures
        r == owns(strs_view(file@), strs_view(owned@)),
{
    if owned.len() > file.len() {
        return false;
    }
    let ghost f = strs_view(file@);
    let ghost o = strs_view(owned@);
    let mut i: usize = 0;
    while i < owned.len()
        invariant
            i <= owned.len(),
            owned.len() <= file.len(),
            f == strs_view(file@),
            o == strs_view(owned@),
            forall|j: int| 0 <= j < i ==> f[j] == o[j],
        decreases owned.len() - i,
    {
        if !str_eq(file[i].as_str(), owned[i].as_str()) {
            proof {
                assert(f.subrange(0, o.len() as int)[i as int] == f[i as int]);
            }
            return false;
        }
        i += 1;
    }
    proof {
        assert(f.subrange(0, o.len() as int) =~= o);
    }
    true
}

proof fn lemma_scan_step(s: Seq<char>, i: int)
    requires
        0 <= i < s.len(),
    ensures
        scan(s.take(i + 1)) == (if s[i] == '/' {
            (scan(s.take(i)).0.push(scan(s.take(i)).1), Seq::<char>::empty())
        } else {
            (scan(s.take(i)).0, scan(s.take(i)).1.push(s[i]))
        }),
{
    assert(s.take(i + 1).drop_last() =~= s.take(i));
}

/// The normalised components of a path, with whether it is absolute and
/// whether some component is `..`.
pub fn path_key_of(s: &str) -> (r: (Vec<String>, bool, bool))
    ensures
        strs_view(r.0@) == path_key(s@),
        r.1 == is_absolute(s@),
        r.2 == has_parent_piece(s@),
{
    let cs = crate::text::chars_of(s);
    let mut stack: Vec<String> = Vec::new();
    let mut cur: Vec<char> = Vec::new();
    let mut parent = false;
    let mut i: usize = 0;
    proof {
        assert(s@.take(0) =~= Seq::<char>::empty());
    }
    while i < cs.len()
        invariant
            i <= cs.len(),
            cs@ == s@,
            strs_view(stack@) == stack_of(scan(s@.take(i as int)).0),
            cur@ == scan(s@.take(i as int)).1,
            parent == has_dot_dot(scan(s@.take(i as int)).0),
        decreases cs.len() - i,
    {
        proof {
            lemma_scan_step(s@, i as int);
        }
        let c = cs[i];
        if c == '/' {
            let ghost ps = scan(s@.take(i as int)).0;
            let ghost piece = cur@;
            let is_dd = cur.len() == 2 && cur[0] == '.' && cur[1] == '.';
            let is_d = cur.len() == 1 && cur[0] == '.';
            proof {
                assert(is_dd == (piece == dot_dot())) by {
                    if piece == dot_dot() {
                        assert(piece[0] == '.' && piece[1] == '.');
                    }
                    if is_dd {
                        assert(piece =~= dot_dot());
                    }
                }
                assert(is_d == (piece == dot())) by {
                    if piece == dot() {
                        assert(piece[0] == '.');
                    }
                    if is_d {
                        assert(piece =~= dot());
                    }
                }
                assert(ps.push(piece).drop_last() =~= ps);
                assert(stack_of(ps.push(piece)) == step(stack_of(ps), piece));
            }
            if cur.len() == 0 || is_d {
            } else if is_dd {
                if stack.len() > 0 {
                    stack.pop();
                    proof {
                        assert(strs_view(stack@) =~= stack_of(ps).drop_last());
                    }
                }
            } else {
                let name = crate::text::string_of(&cur);
                stack.push(name);
                proof {
                    assert(strs_view(stack@) =~= stack_of(ps).push(piece));
                }
            }
            parent = parent || is_dd;
            proof {
                let nps = ps.push(piece);
                if parent {
                    if is_dd {
                        assert(nps[ps.len() as int] == dot_dot());
                    } else {
                        let j = choose|j: int| 0 <= j < ps.len() && #[trigger] ps[j] == dot_dot();
                        assert(nps[j] == dot_dot());
                    }
                } else {
                    assert forall|j: int| 0 <= j < nps.len() implies #[trigger] nps[j] != dot_dot() by {
                        if j < ps.len() {
                            assert(nps[j] == ps[j]);
                        }
                    }
                }
            }
            cur = Vec::new();
        } else {
            cur.push(c);
            proof {
                assert(scan(s@.take(i + 1)).0 == scan(s@.take(i as int)).0);
            }
        }
        i += 1;
    }
    proof {
        assert(s@.take(cs.len() as int) =~= s@);
    }
    // the last piece
    let ghost ps = scan(s@).0;
    let ghost piece = cur@;
    let is_dd = cur.len() == 2 && cur[0] == '.' && cur[1] == '.';
    let is_d = cur.len() == 1 && cur[0] == '.';
    proof {
        assert(is_dd == (piece == dot_dot())) by {
            if piece == dot_dot() {
                assert(piece[0] == '.' && piece[1] == '.');
            }
            if is_dd {
                assert(piece =~= dot_dot());
            }
        }
        assert(is_d == (piece == dot())) by {
            if piece == dot() {
                assert(piece[0] == '.');
            }
            if is_d {
                assert(piece =~= dot());
            }
        }
        assert(pieces(s@) == ps.push(piece));
        assert(ps.push(piece).drop_last() =~= ps);
    }
    if cur.len() == 0 || is_d {
    } else if is_dd {
        if stack.len() > 0 {
            stack.pop();
            proof {
                assert(strs_view(stack@) =~= stack_of(ps).drop_last());
            }
        }
    } else {
        let name = crate::text::string_of(&cur);
        stack.push(name);
        proof {
            assert(strs_view(stack@) =~= stack_of(ps).push(piece));
        }
    }
    parent = parent || is_dd;
    proof {
        let nps = pieces(s@);
        if parent {
            if is_dd {
                assert(nps[ps.len() as int] == dot_dot());
            } else {
                let j = choose|j: int| 0 <= j < ps.len() && #[trigger] ps[j] == dot_dot();
                assert(nps[j] == dot_dot());
            }
        } else {
            assert forall|j: int| 0 <= j < nps.len() implies #[trigger] nps[j] != dot_dot() by {
                if j < ps.len() {
                    assert(nps[j] == ps[j]);
                }
            }
        }
    }
    let absolute = cs.len() > 0 && cs[0] == '/';
    if absolute {
        let mut key: Vec<String> = Vec::new();
        key.push(String::new());
        let mut j: usize = 0;
        let ghost st = strs_view(stack@);
        while j < stack.len()
            invariant
                j <= stack.len(),
                st == strs_view(stack@),
                key@.len() == j + 1,
                key@[0]@ == Seq::<char>::empty(),
                forall|q: int| 0 <= q < j ==> (#[trigger] key@[q + 1])@ == st[q],
            decreases stack.len() - j,
        {
            key.push(stack[j].clone());
            j += 1;
        }
        proof {
            assert(strs_view(key@) =~= seq![Seq::<char>::empty()] + st) by {
                assert forall|q: int| 1 <= q < key@.len() implies strs_view(key@)[q] == st[q - 1] by {
                    assert(key@[(q - 1) + 1]@ == st[q - 1]);
                }
            }
        }
        (key, true, parent)
    } else {
        (stack, false, parent)
    }
}

/// The text of a path given by its components.
pub fn render_key(key: &Vec<String>) -> (s: String)
    ensures
        s@ == render(strs_view(key@)),
{
    let ghost k = strs_view(key@);
    let rooted = key.len() > 0 && key[0].as_str().is_empty();
    proof {
        if key.len() > 0 {
            assert(k[0] == key@[0]@);
        }
    }
    let start: usize = if rooted { 1 } else { 0 };
    let ghost parts = k.skip(start as int);
    let mut out = String::new();
    let mut i: usize = start;
    proof {
        reveal_strlit("/");
        assert(parts.take(0) =~= Seq::<Seq<char>>::empty());
    }
    while i < key.len()
        invariant
            start <= i <= key.len(),
            k == strs_view(key@),
            parts == k.skip(start as int),
            out@ == joined(parts.take(i - start)),
            "/"@ == seq!['/'],
        decreases key.len() - i,
    {
        let ghost before = parts.take(i - start);
        if i > start {
            out.append("/");
        }
        out.append(key[i].as_str());
        proof {
            let after = parts.take(i + 1 - start);
            assert(after.drop_last() =~= before);
            assert(after.last() == k[i as int]);
            if i == start {
                assert(after.len() == 1);
                assert(out@ =~= after[0]);
            } else {
                assert(out@ =~= joined(before) + seq!['/'] + after.last());
            }
        }
        i += 1;
    }
    proof {
        assert(parts.take(key.len() - start) =~= parts);
        if rooted {
            assert(k.drop_first() =~= parts);
        } else {
            assert(k =~= parts);
        }
    }
    if rooted {
        let mut r = String::new();
        r.append("/");
        r.append(out.as_str());
        proof {
            reveal_strlit("/");
            assert(r@ =~= seq!['/'] + out@);
        }
        r
    } else {
        out
    }
}

/// The path with `.` and empty components dropped and `..` resolved against
/// the components before it.
pub fn normalize_path(path: &str) -> (s: String)
    ensures
        s@ == normalized(path@),
{
    let (key, _, _) = path_key_of(path);
    render_key(&key)
}

pub(crate) fn copy_key(v: &Vec<String>) -> (r: Vec<String>)
    ensures
        strs_view(r@) == strs_view(v@),
{
    clone_strings(v)
}

} // verus!
