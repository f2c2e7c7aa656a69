//! Paths as sequences of components: splitting request paths, resolving
//! `.` and `..`, containment under the served root and the way back to URLs.
use vstd::prelude::*;

verus! {

/// The pieces of `s` between slashes, empty pieces included (as `str::split`).
pub open spec fn split_slash(s: Seq<char>) -> Seq<Seq<char>>
    decreases s.len(),
{
    if s.len() == 0 {
        seq![Seq::<char>::empty()]
    } else {
        let prev = split_slash(s.drop_last());
        if s.last() == '/' {
            prev.push(Seq::<char>::empty())
        } else {
            prev.update(prev.len() - 1, prev.last().push(s.last()))
        }
    }
}

pub proof fn lemma_split_slash_nonempty(s: Seq<char>)
    ensures
        split_slash(s).len() >= 1,
    decreases s.len(),
{
    if s.len() > 0 {
        lemma_split_slash_nonempty(s.drop_last());
    }
}

/// Walks `segs` from the directory `cur`: empty pieces and `.` stay, `..`
/// goes up (the top stays where it is), any other piece goes down.
pub open spec fn walk(cur: Seq<Seq<char>>, segs: Seq<Seq<char>>) -> Seq<Seq<char>>
    decreases segs.len(),
{
    if segs.len() == 0 {
        cur
    } else {
        let s = segs[0];
        let rest = segs.drop_first();
        if s.len() == 0 || s == seq!['.'] {
            walk(cur, rest)
        } else if s == seq!['.', '.'] {
            if cur.len() == 0 {
                walk(cur, rest)
            } else {
                walk(cur.drop_last(), rest)
            }
        } else {
            walk(cur.push(s), rest)
        }
    }
}

/// `root` is `p` itself or one of its ancestors.
pub open spec fn is_prefix(root: Seq<Seq<char>>, p: Seq<Seq<char>>) -> bool {
    root.len() <= p.len() && p.take(root.len() as int) == root
}

/// The path that a request path names, relative to the filesystem's top,
/// once joined onto `root`.
pub open spec fn resolve_spec(root: Seq<Seq<char>>, request: Seq<char>) -> Seq<Seq<char>> {
    walk(root, split_slash(request))
}

/// Splits `s` at every `/`; empty pieces are kept.
pub fn split_path(s: &str) -> (r: Vec<String>)
    ensures
        r.deep_view() == split_slash(s@),
{
    let n = s.unicode_len();
    let mut out: Vec<String> = Vec::new();
    let mut start: usize = 0;
    let mut i: usize = 0;
    proof {
        assert(s@.take(0) =~= Seq::<char>::empty());
        assert(out.deep_view().push(s@.subrange(0, 0)) =~= seq![Seq::<char>::empty()]);
    }
    while i < n
        invariant
            n == s@.len(),
            start <= i <= n,
            split_slash(s@.take(i as int)) == out.deep_view().push(s@.subrange(start as int, i as int)),
        decreases n - i,
    {
        let c = s.get_char(i);
        proof {
            assert(s@.take(i + 1).drop_last() =~= s@.take(i as int));
            assert(s@.take(i + 1).last() == c);
        }
        if c == '/' {
            let piece = s.substring_char(start, i);
            out.push(piece.to_owned());
            proof {
                assert(s@.subrange(i + 1, i + 1) =~= Seq::<char>::empty());
            }
            start = i + 1;
        } else {
            proof {
                assert(s@.subrange(start as int, i + 1) =~= s@.subrange(start as int, i as int).push(c));
            }
        }
        i = i + 1;
    }
    let piece = s.substring_char(start, n);
    out.push(piece.to_owned());
    proof {
        assert(s@.take(n as int) =~= s@);
    }
    out
}

/// `/` followed by the components joined with `/`.
pub open spec fn url_spec(parts: Seq<Seq<char>>) -> Seq<char>
    decreases parts.len(),
{
    if parts.len() == 0 {
        seq!['/']
    } else if parts.len() == 1 {
        seq!['/'] + parts[0]
    } else {
        url_spec(parts.drop_last()) + seq!['/'] + parts.last()
    }
}

/// A piece that a walk skips.
pub open spec fn is_skipped(s: Seq<char>) -> bool {
    s.len() == 0 || s == seq!['.']
}

pub open spec fn is_parent_step(s: Seq<char>) -> bool {
    s == seq!['.', '.']
}

fn skipped(s: &String) -> (r: bool)
    ensures
        r == is_skipped(s@),
{
    let t = s.as_str();
    let n = t.unicode_len();
    let r = n == 0 || (n == 1 && t.get_char(0) == '.');
    proof {
        if n == 1 && r {
            assert(t@ =~= seq!['.']);
        }
        if n == 1 && !r {
            assert(t@[0] != seq!['.'][0]);
        }
    }
    r
}

fn parent_step(s: &String) -> (r: bool)
    ensures
        r == is_parent_step(s@),
{
    let t = s.as_str();
    let n = t.unicode_len();
    let r = n == 2 && t.get_char(0) == '.' && t.get_char(1) == '.';
    proof {
        if n == 2 && r {
            assert(t@ =~= seq!['.', '.']);
        }
        if n == 2 && !r {
            assert(t@[0] != seq!['.', '.'][0] || t@[1] != seq!['.', '.'][1]);
        }
    }
    r
}

/// Walks the pieces `segs` from the directory `cur` (see `walk`).
pub fn walk_from(cur: Vec<String>, segs: &Vec<String>) -> (r: Vec<String>)
    ensures
        r.deep_view() == walk(cur.deep_view(), segs.deep_view()),
{
    let mut cur = cur;
    let ghost start = cur.deep_view();
    let mut i: usize = 0;
    proof {
        assert(segs.deep_view().skip(0) =~= segs.deep_view());
    }
    while i < segs.len()
        invariant
            i <= segs.len(),
            walk(cur.deep_view(), segs.deep_view().skip(i as int)) == walk(start, segs.deep_view()),
        decreases segs.len() - i,
    {
        let ghost before = cur.deep_view();
        let s = &segs[i];
        proof {
            assert(segs.deep_view().skip(i as int).drop_first() =~= segs.deep_view().skip(i + 1));
            assert(segs.deep_view().skip(i as int)[0] == s@);
        }
        if skipped(s) {
        } else if parent_step(s) {
            if cur.len() > 0 {
                cur.pop();
                proof {
                    assert(cur.deep_view() =~= before.drop_last());
                }
            }
        } else {
            cur.push(s.clone());
            proof {
                assert(cur.deep_view() =~= before.push(s@));
            }
        }
        i = i + 1;
    }
    proof {
        assert(segs.deep_view().skip(i as int) =~= Seq::<Seq<char>>::empty());
    }
    cur
}

/// The components of an absolute path: `.` and `..` resolved, empty pieces
/// dropped.
pub fn components(path: &str) -> (r: Vec<String>)
    ensures
        r.deep_view() == walk(Seq::empty(), split_slash(path@)),
{
    let pieces = split_path(path);
    let top: Vec<String> = Vec::new();
    proof {
        assert(top.deep_view() =~= Seq::<Seq<char>>::empty());
    }
    walk_from(top, &pieces)
}

fn same_text(a: &String, b: &String) -> (r: bool)
    ensures
        r == (a@ == b@),
{
    let x = a.as_str();
    let y = b.as_str();
    let n = x.unicode_len();
    if n != y.unicode_len() {
        return false;
    }
    let mut i: usize = 0;
    while i < n
        invariant
            n == x@.len() == y@.len(),
            x@ == a@,
            y@ == b@,
            i <= n,
            x@.take(i as int) == y@.take(i as int),
        decreases n - i,
    {
        if x.get_char(i) != y.get_char(i) {
            proof {
                assert(x@[i as int] != y@[i as int]);
            }
            return false;
        }
        proof {
            assert(x@.take(i + 1) =~= x@.take(i as int).push(x@[i as int]));
            assert(y@.take(i + 1) =~= y@.take(i as int).push(y@[i as int]));
        }
        i = i + 1;
    }
    proof {
        assert(x@ =~= x@.take(n as int));
        assert(y@ =~= y@.take(n as int));
    }
    true
}

/// The position of `p` below `root`: `None` where `root` is neither `p`
/// nor one of its ancestors.
pub fn relative_to(root: &Vec<String>, p: &Vec<String>) -> (r: Option<Vec<String>>)
    ensures
        r is Some <==> is_prefix(root.deep_view(), p.deep_view()),
        r matches Some(rel) ==> rel.deep_view() == p.deep_view().skip(root.len() as int),
{
    if root.len() > p.len() {
        return None;
    }
    let mut i: usize = 0;
    while i < root.len()
        invariant
            root.len() <= p.len(),
            i <= root.len(),
            p.deep_view().take(i as int) == root.deep_view().take(i as int),
        decreases root.len() - i,
    {
        if !same_text(&root[i], &p[i]) {
            proof {
                assert(p.deep_view().take(root.len() as int)[i as int] != root.deep_view()[i as int]);
            }
            return None;
        }
        proof {
            assert(p.deep_view().take(i + 1) =~= p.deep_view().take(i as int).push(p[i as int]@));
            assert(root.deep_view().take(i + 1) =~= root.deep_view().take(i as int).push(root[i as int]@));
        }
        i = i + 1;
    }
    proof {
        assert(root.deep_view().take(root.len() as int) =~= root.deep_view());
    }
    let mut rel: Vec<String> = Vec::new();
    let mut j: usize = root.len();
    while j < p.len()
        invariant
            root.len() <= j <= p.len(),
            rel.deep_view() == p.deep_view().subrange(root.len() as int, j as int),
        decreases p.len() - j,
    {
        let ghost before = rel.deep_view();
        let x = p[j].clone();
        rel.push(x);
        proof {
            assert(rel.deep_view() =~= before.push(p[j as int]@));
            assert(rel.deep_view() =~= p.deep_view().subrange(root.len() as int, j + 1));
        }
        j = j + 1;
    }
    proof {
        assert(p.deep_view().skip(root.len() as int) =~= p.deep_view().subrange(root.len() as int, p.len() as int));
    }
    Some(rel)
}

/// Joins `request` onto `root` and resolves it; `None` where the result
/// lies outside `root`.
pub fn resolve(root: &Vec<String>, request: &str) -> (r: Option<Vec<String>>)
    ensures
        r is Some <==> is_prefix(root.deep_view(), resolve_spec(root.deep_view(), request@)),
        r matches Some(p) ==> p.deep_view() == resolve_spec(root.deep_view(), request@),
{
    let pieces = split_path(request);
    let start = root.clone();
    proof {
        assert(start.deep_view() == root.deep_view()) by {
            broadcast use vstd::std_specs::vec::vec_clone_deep_view_proof;
        }
    }
    let target = walk_from(start, &pieces);
    match relative_to(root, &target) {
        Some(_) => Some(target),
        None => None,
    }
}

/// The URL of the path whose components are `parts`.
pub fn url_of(parts: &Vec<String>) -> (r: String)
    ensures
        r@ == url_spec(parts.deep_view()),
{
    let mut out = String::from_str("/");
    proof {
        reveal_strlit("/");
    }
    if parts.len() == 0 {
        return out;
    }
    out.append(parts[0].as_str());
    let mut i: usize = 1;
    proof {
        assert(parts.deep_view().take(1).drop_last() =~= Seq::<Seq<char>>::empty());
    }
    while i < parts.len()
        invariant
            1 <= i <= parts.len(),
            out@ == url_spec(parts.deep_view().take(i as int)),
        decreases parts.len() - i,
    {
        out.append("/");
        out.append(parts[i].as_str());
        proof {
            reveal_strlit("/");
            assert(parts.deep_view().take(i + 1).drop_last() =~= parts.deep_view().take(i as int));
        }
        i = i + 1;
    }
    proof {
        assert(parts.deep_view().take(i as int) =~= parts.deep_view());
    }
    out
}

/// A name that a directory can hold: not empty, no `/`, neither `.` nor `..`.
pub open spec fn is_plain_name(s: Seq<char>) -> bool {
    &&& s.len() > 0
    &&& forall|i: int| 0 <= i < s.len() ==> s[i] != '/'
    &&& s != seq!['.']
    &&& s != seq!['.', '.']
}

pub open spec fn all_plain(parts: Seq<Seq<char>>) -> bool {
    forall|i: int| 0 <= i < parts.len() ==> is_plain_name(#[trigger] parts[i])
}

proof fn lemma_split_after_slash(a: Seq<char>, b: Seq<char>)
    requires
        forall|i: int| 0 <= i < b.len() ==> b[i] != '/',
    ensures
        split_slash(a + seq!['/'] + b) == split_slash(a).push(b),
    decreases b.len(),
{
    let s = a + seq!['/'] + b;
    if b.len() == 0 {
        assert(s.drop_last() =~= a);
        assert(b =~= Seq::<char>::empty());
    } else {
        let b0 = b.drop_last();
        lemma_split_after_slash(a, b0);
        assert(s.drop_last() =~= a + seq!['/'] + b0);
        lemma_split_slash_nonempty(a);
        assert(b0.push(b.last()) =~= b);
        assert(s.last() == b.last());
        assert(b.last() != '/');
        assert(split_slash(a).push(b0).update(split_slash(a).len() as int, b0.push(b.last())) =~= split_slash(a).push(b));
    }
}

proof fn lemma_split_url(parts: Seq<Seq<char>>)
    requires
        parts.len() > 0,
        all_plain(parts),
    ensures
        split_slash(url_spec(parts)) == seq![Seq::<char>::empty()] + parts,
    decreases parts.len(),
{
    if parts.len() == 1 {
        assert(is_plain_name(parts[0]));
        assert(seq!['/'] + parts[0] =~= Seq::<char>::empty() + seq!['/'] + parts[0]);
        lemma_split_after_slash(Seq::<char>::empty(), parts[0]);
        assert(seq![Seq::<char>::empty()].push(parts[0]) =~= seq![Seq::<char>::empty()] + parts);
    } else {
        let init = parts.drop_last();
        assert(all_plain(init)) by {
            assert forall|i: int| 0 <= i < init.len() implies is_plain_name(#[trigger] init[i]) by {
                assert(init[i] == parts[i]);
            }
        }
        lemma_split_url(init);
        assert(is_plain_name(parts[parts.len() - 1]));
        lemma_split_after_slash(url_spec(init), parts.last());
        assert((seq![Seq::<char>::empty()] + init).push(parts.last()) =~= seq![Seq::<char>::empty()] + parts);
    }
}

proof fn lemma_walk_plain(cur: Seq<Seq<char>>, parts: Seq<Seq<char>>)
    requires
        all_plain(parts),
    ensures
        walk(cur, parts) == cur + parts,
    decreases parts.len(),
{
    if parts.len() == 0 {
        assert(cur + parts =~= cur);
    } else {
        let rest = parts.drop_first();
        assert(is_plain_name(parts[0]));
        assert(parts[0].len() > 0);
        assert(all_plain(rest)) by {
            assert forall|i: int| 0 <= i < rest.len() implies is_plain_name(#[trigger] rest[i]) by {
                assert(rest[i] == parts[i + 1]);
            }
        }
        lemma_walk_plain(cur.push(parts[0]), rest);
        assert(cur.push(parts[0]) + rest =~= cur + parts);
    }
}

/// Mapping the URL of `root` + `parts` back onto `root` gives that path
/// again, and it lies within `root`.
pub proof fn law_url_round_trip(root: Seq<Seq<char>>, parts: Seq<Seq<char>>)
    requires
        parts.len() > 0,
        all_plain(parts),
    ensures
        resolve_spec(root, url_spec(parts)) == root + parts,
        is_prefix(root, resolve_spec(root, url_spec(parts))),
{
    lemma_split_url(parts);
    let segs = seq![Seq::<char>::empty()] + parts;
    assert(segs.drop_first() =~= parts);
    assert(segs[0].len() == 0);
    lemma_walk_plain(root, parts);
    assert((root + parts).take(root.len() as int) =~= root);
}

} // verus!
