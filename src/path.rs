//! Request paths: splitting into segments, normalization, joining under a
//! root directory, and the containment check on canonical paths.
use vstd::prelude::*;

verus! {

/// The segments of `s` between `/` separators, empty ones included.
pub open spec fn split_spec(s: Seq<char>) -> Seq<Seq<char>>
    decreases s.len(),
{
    if s.len() == 0 {
        seq![Seq::<char>::empty()]
    } else {
        let prev = split_spec(s.drop_last());
        if s.last() == '/' {
            prev.push(Seq::<char>::empty())
        } else {
            prev.update(prev.len() - 1, prev.last().push(s.last()))
        }
    }
}

pub open spec fn is_dot(x: Seq<char>) -> bool {
    x == seq!['.']
}

pub open spec fn is_dot_dot(x: Seq<char>) -> bool {
    x == seq!['.', '.']
}

/// A segment that names a child: not empty, no separator, not `.` or `..`.
pub open spec fn is_name(x: Seq<char>) -> bool {
    &&& x.len() > 0
    &&& !x.contains('/')
    &&& !is_dot(x)
    &&& !is_dot_dot(x)
}

/// Collapses `.`, `..` and empty segments; `None` when a `..` would climb
/// above the root.
pub open spec fn normalize_spec(segs: Seq<Seq<char>>) -> Option<Seq<Seq<char>>>
    decreases segs.len(),
{
    if segs.len() == 0 {
        Some(Seq::<Seq<char>>::empty())
    } else {
        match normalize_spec(segs.drop_last()) {
            None => None,
            Some(p) => {
                let x = segs.last();
                if x.len() == 0 || is_dot(x) {
                    Some(p)
                } else if is_dot_dot(x) {
                    if p.len() == 0 {
                        None
                    } else {
                        Some(p.drop_last())
                    }
                } else {
                    Some(p.push(x))
                }
            },
        }
    }
}

/// The normalized segments of a request path.
pub open spec fn request_segments(p: Seq<char>) -> Option<Seq<Seq<char>>> {
    normalize_spec(split_spec(p))
}

/// The segments joined with `/`.
pub open spec fn join_spec(segs: Seq<Seq<char>>) -> Seq<char>
    decreases segs.len(),
{
    if segs.len() == 0 {
        Seq::<char>::empty()
    } else if segs.len() == 1 {
        segs[0]
    } else {
        join_spec(segs.drop_last()) + seq!['/'] + segs.last()
    }
}

pub open spec fn string_views(v: Seq<String>) -> Seq<Seq<char>> {
    v.map_values(|s: String| s@)
}

/// The filesystem path of `segs` under `root`.
pub open spec fn join_under_spec(root: Seq<char>, segs: Seq<Seq<char>>) -> Seq<char> {
    if segs.len() == 0 {
        root
    } else if root.len() > 0 && root.last() == '/' {
        root + join_spec(segs)
    } else {
        root + seq!['/'] + join_spec(segs)
    }
}

/// `p` is `root` itself or lies below it, comparing whole segments.
pub open spec fn is_descendant(root: Seq<char>, p: Seq<char>) -> bool {
    &&& root.len() <= p.len()
    &&& p.subrange(0, root.len() as int) == root
    &&& (p.len() == root.len() || (root.len() > 0 && root.last() == '/')
        || p[root.len() as int] == '/')
}

/// Splits `s` at every `/`.
pub fn split_segments(s: &str) -> (r: Vec<String>)
    ensures
        string_views(r@) == split_spec(s@),
{
    let n = s.unicode_len();
    let mut acc: Vec<String> = Vec::new();
    let mut start: usize = 0;
    let mut i: usize = 0;
    assert(s@.subrange(0, 0) == Seq::<char>::empty());
    assert(string_views(acc@) == Seq::<Seq<char>>::empty());
    while i < n
        invariant
            n == s@.len(),
            start <= i <= n,
            split_spec(s@.subrange(0, i as int)) == string_views(acc@).push(
                s@.subrange(start as int, i as int),
            ),
        decreases n - i,
    {
        let c = s.get_char(i);
        let ghost prefix = s@.subrange(0, i as int);
        assert(s@.subrange(0, i + 1).drop_last() == prefix);
        let ghost before = acc@;
        if c == '/' {
            let seg = String::from_str(s.substring_char(start, i));
            acc.push(seg);
            start = i + 1;
            assert(string_views(acc@) == string_views(before).push(seg@));
            assert(s@.subrange(start as int, i + 1) == Seq::<char>::empty());
        } else {
            assert(s@.subrange(start as int, i + 1) == s@.subrange(start as int, i as int).push(c));
        }
        i = i + 1;
    }
    let seg = String::from_str(s.substring_char(start, n));
    let ghost before = acc@;
    acc.push(seg);
    assert(s@.subrange(0, n as int) == s@);
    assert(string_views(acc@) == string_views(before).push(seg@));
    acc
}

pub open spec fn opt_views(r: Option<Vec<String>>) -> Option<Seq<Seq<char>>> {
    match r {
        None => None,
        Some(v) => Some(string_views(v@)),
    }
}

proof fn lemma_escape_sticks(segs: Seq<Seq<char>>, i: int)
    requires
        0 <= i <= segs.len(),
        normalize_spec(segs.subrange(0, i)) is None,
    ensures
        normalize_spec(segs) is None,
    decreases segs.len() - i,
{
    if i < segs.len() {
        assert(segs.subrange(0, i + 1).drop_last() == segs.subrange(0, i));
        lemma_escape_sticks(segs, i + 1);
    } else {
        assert(segs.subrange(0, i) == segs);
    }
}

fn is_dot_exec(x: &String) -> (r: bool)
    ensures
        r == is_dot(x@),
{
    let s = x.as_str();
    if s.unicode_len() == 1 && s.get_char(0) == '.' {
        assert(x@ == seq!['.']);
        true
    } else {
        false
    }
}

fn is_dot_dot_exec(x: &String) -> (r: bool)
    ensures
        r == is_dot_dot(x@),
{
    let s = x.as_str();
    if s.unicode_len() == 2 && s.get_char(0) == '.' && s.get_char(1) == '.' {
        assert(x@ == seq!['.', '.']);
        true
    } else {
        false
    }
}

/// Collapses `.`, `..` and empty segments; `None` when a `..` climbs above
/// the root.
pub fn normalize_segments(segs: &Vec<String>) -> (r: Option<Vec<String>>)
    ensures
        opt_views(r) == normalize_spec(string_views(segs@)),
{
    let ghost all = string_views(segs@);
    let mut out: Vec<String> = Vec::new();
    let mut i: usize = 0;
    assert(all.subrange(0, 0) == Seq::<Seq<char>>::empty());
    assert(string_views(out@) == Seq::<Seq<char>>::empty());
    while i < segs.len()
        invariant
            all == string_views(segs@),
            i <= segs.len(),
            normalize_spec(all.subrange(0, i as int)) == Some(string_views(out@)),
        decreases segs.len() - i,
    {
        let x = &segs[i];
        let ghost before = out@;
        assert(all.subrange(0, i + 1).drop_last() == all.subrange(0, i as int));
        assert(all.subrange(0, i + 1).last() == x@);
        if x.as_str().unicode_len() == 0 || is_dot_exec(x) {
        } else if is_dot_dot_exec(x) {
            if out.len() == 0 {
                proof {
                    lemma_escape_sticks(all, i + 1);
                }
                return None;
            }
            out.pop();
            assert(string_views(out@) == string_views(before).drop_last());
        } else {
            out.push(x.clone());
            assert(string_views(out@) == string_views(before).push(x@));
        }
        i = i + 1;
    }
    assert(all.subrange(0, segs.len() as int) == all);
    Some(out)
}

/// The normalized segments of a request path, or `None` when the path
/// climbs above the root.
pub fn resolve_request(path: &str) -> (r: Option<Vec<String>>)
    ensures
        opt_views(r) == request_segments(path@),
{
    let segs = split_segments(path);
    normalize_segments(&segs)
}

/// The segments joined with `/`.
pub fn join_segments(segs: &Vec<String>) -> (r: String)
    ensures
        r@ == join_spec(string_views(segs@)),
{
    let ghost all = string_views(segs@);
    let mut out = String::new();
    let mut i: usize = 0;
    assert(all.subrange(0, 0) == Seq::<Seq<char>>::empty());
    while i < segs.len()
        invariant
            all == string_views(segs@),
            i <= segs.len(),
            out@ == join_spec(all.subrange(0, i as int)),
        decreases segs.len() - i,
    {
        assert(all.subrange(0, i + 1).drop_last() == all.subrange(0, i as int));
        if i > 0 {
            out.append("/");
            proof {
                reveal_strlit("/");
            }
        } else {
            assert(all.subrange(0, 1)[0] == all[0]);
        }
        out.append(segs[i].as_str());
        i = i + 1;
    }
    assert(all.subrange(0, segs.len() as int) == all);
    out
}

/// The filesystem path of `segs` under `root`.
pub fn join_under(root: &str, segs: &Vec<String>) -> (r: String)
    ensures
        r@ == join_under_spec(root@, string_views(segs@)),
{
    let mut out = String::from_str(root);
    if segs.len() == 0 {
        return out;
    }
    let n = root.unicode_len();
    if !(n > 0 && root.get_char(n - 1) == '/') {
        out.append("/");
        proof {
            reveal_strlit("/");
        }
    }
    let rest = join_segments(segs);
    out.append(rest.as_str());
    out
}

/// Whether the canonical path `p` is `root` or lies below it.
pub fn is_within(root: &str, p: &str) -> (r: bool)
    ensures
        r == is_descendant(root@, p@),
{
    let n = root.unicode_len();
    let m = p.unicode_len();
    if n > m {
        return false;
    }
    let mut i: usize = 0;
    while i < n
        invariant
            n == root@.len(),
            m == p@.len(),
            n <= m,
            i <= n,
            forall|k: int| 0 <= k < i ==> p@[k] == root@[k],
        decreases n - i,
    {
        if root.get_char(i) != p.get_char(i) {
            assert(p@.subrange(0, n as int)[i as int] != root@[i as int]);
            return false;
        }
        i = i + 1;
    }
    assert(p@.subrange(0, n as int) == root@);
    n == m || (n > 0 && root.get_char(n - 1) == '/') || p.get_char(n) == '/'
}

/// The normalized segments of a request and the filesystem path they lead to
/// under `root`, or `None` when the request climbs above the root.
pub fn request_target(root: &str, request: &str) -> (r: Option<(Vec<String>, String)>)
    ensures
        r is None <==> request_segments(request@) is None,
        r is Some ==> Some(string_views(r->Some_0.0@)) == request_segments(request@),
        r is Some ==> r->Some_0.1@ == join_under_spec(root@, string_views(r->Some_0.0@)),
        r is Some ==> is_descendant(root@, r->Some_0.1@),
{
    match resolve_request(request) {
        None => None,
        Some(segs) => {
            proof {
                lemma_resolved_within_root(root@, request@);
            }
            let path = join_under(root, &segs);
            Some((segs, path))
        },
    }
}

pub(crate) proof fn lemma_split_no_slash(s: Seq<char>)
    ensures
        forall|i: int| 0 <= i < split_spec(s).len() ==> !(#[trigger] split_spec(s)[i]).contains('/'),
        split_spec(s).len() > 0,
    decreases s.len(),
{
    if s.len() > 0 {
        lemma_split_no_slash(s.drop_last());
        let prev = split_spec(s.drop_last());
        if s.last() != '/' {
            let ext = prev.last().push(s.last());
            assert forall|k: int| 0 <= k < ext.len() implies ext[k] != '/' by {
                if k < prev.last().len() {
                    assert(prev.last()[k] == ext[k]);
                }
            }
        }
    }
}

proof fn lemma_normalize_names(segs: Seq<Seq<char>>)
    requires
        forall|i: int| 0 <= i < segs.len() ==> !(#[trigger] segs[i]).contains('/'),
    ensures
        normalize_spec(segs) is Some ==> forall|i: int|
            0 <= i < normalize_spec(segs)->Some_0.len() ==> is_name(
                #[trigger] normalize_spec(segs)->Some_0[i],
            ),
    decreases segs.len(),
{
    if segs.len() > 0 {
        let init = segs.drop_last();
        assert forall|i: int| 0 <= i < init.len() implies !(#[trigger] init[i]).contains('/') by {
            assert(init[i] == segs[i]);
        }
        lemma_normalize_names(init);
        assert(!segs[segs.len() - 1].contains('/'));
    }
}

/// The segments of every request path that resolves are names: no `.`, no
/// `..`, no separator, none empty.
pub proof fn lemma_resolved_names(p: Seq<char>)
    ensures
        request_segments(p) is Some ==> forall|i: int|
            0 <= i < request_segments(p)->Some_0.len() ==> is_name(
                #[trigger] request_segments(p)->Some_0[i],
            ),
{
    lemma_split_no_slash(p);
    lemma_normalize_names(split_spec(p));
}

/// Every path that a request resolves to lies under the root, and is built
/// from name segments only, so no traversal can leave the served tree.
pub proof fn lemma_resolved_within_root(root: Seq<char>, p: Seq<char>)
    ensures
        request_segments(p) is Some ==> is_descendant(
            root,
            join_under_spec(root, request_segments(p)->Some_0),
        ),
        request_segments(p) is Some ==> forall|i: int|
            0 <= i < request_segments(p)->Some_0.len() ==> is_name(
                #[trigger] request_segments(p)->Some_0[i],
            ),
{
    lemma_resolved_names(p);
    if request_segments(p) is Some {
        let segs = request_segments(p)->Some_0;
        let q = join_under_spec(root, segs);
        if segs.len() == 0 {
            assert(q.subrange(0, root.len() as int) == root);
        } else if root.len() > 0 && root.last() == '/' {
            assert(q.subrange(0, root.len() as int) == root);
        } else {
            assert(q.subrange(0, root.len() as int) == root);
            assert(q[root.len() as int] == '/');
        }
    }
}

} // verus!
