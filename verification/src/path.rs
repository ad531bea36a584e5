//! Unix path strings: the final component of a path, joining two paths,
//! comparing paths component by component and taking one relative to another.
use vstd::prelude::*;
use vstd::string::*;


verus! {

/// Index just past the last `/` of `p`, or 0 when `p` has none.
pub open spec fn segment_start(p: Seq<char>) -> nat
    decreases p.len(),
{
    if p.len() == 0 {
        0
    } else if p.last() == '/' {
        p.len()
    } else {
        segment_start(p.drop_last())
    }
}

pub proof fn lemma_segment_start(p: Seq<char>)
    ensures
        segment_start(p) <= p.len(),
        p.len() > 0 && p.last() != '/' ==> segment_start(p) < p.len(),
        forall|j: int| segment_start(p) <= j < p.len() ==> p[j] != '/',
        segment_start(p) > 0 ==> p[segment_start(p) - 1] == '/',
    decreases p.len(),
{
    if p.len() > 0 && p.last() != '/' {
        lemma_segment_start(p.drop_last());
        assert forall|j: int| segment_start(p) <= j < p.len() implies p[j] != '/' by {
            if j < p.len() - 1 {
                assert(p.drop_last()[j] == p[j]);
            }
        }
    }
}

/// The final component of a path, as `Path::file_name` gives it: trailing
/// separators and `.` components are passed over, and a path that ends in
/// `..`, or has no normal component, has none.
pub open spec fn file_name_spec(p: Seq<char>) -> Option<Seq<char>>
    decreases p.len(),
{
    if p.len() == 0 {
        None
    } else if p.last() == '/' {
        file_name_spec(p.drop_last())
    } else {
        let k = segment_start(p);
        let seg = p.subrange(k as int, p.len() as int);
        if seg == seq!['.'] {
            if k < p.len() {
                file_name_spec(p.subrange(0, k as int))
            } else {
                None
            }
        } else if seg == seq!['.', '.'] {
            None
        } else {
            Some(seg)
        }
    }
}

/// The final component, or the empty sequence when there is none.
pub open spec fn file_name_or_empty(p: Seq<char>) -> Seq<char> {
    match file_name_spec(p) {
        Some(n) => n,
        None => seq![],
    }
}

/// `base` joined with `rel` as `Path::join` does on Unix: an absolute `rel`
/// replaces `base`, otherwise a separator is put between them when `base` is
/// non-empty and does not already end in one.
pub open spec fn join_spec(base: Seq<char>, rel: Seq<char>) -> Seq<char> {
    if rel.len() > 0 && rel[0] == '/' {
        rel
    } else if base.len() > 0 && base.last() != '/' {
        base + seq!['/'] + rel
    } else {
        base + rel
    }
}

/// The final component of the path `p`, if it has one.
pub fn file_name(p: &str) -> (r: Option<String>)
    ensures
        match r {
            Some(n) => file_name_spec(p@) == Some(n@),
            None => file_name_spec(p@) is None,
        },
{
    let n = p.unicode_len();
    let mut end: usize = n;
    assert(p@.subrange(0, n as int) =~= p@);
    loop
        invariant
            n == p@.len(),
            end <= n,
            file_name_spec(p@) == file_name_spec(p@.subrange(0, end as int)),
        decreases end,
    {
        let ghost q = p@.subrange(0, end as int);
        if end == 0 {
            return None;
        }
        if p.get_char(end - 1) == '/' {
            assert(q.last() == '/');
            assert(q.drop_last() =~= p@.subrange(0, end - 1));
            end = end - 1;
        } else {
            assert(q.last() != '/');
            assert(q.drop_last() =~= p@.subrange(0, end - 1));
            let mut k: usize = end - 1;
            while k > 0 && p.get_char(k - 1) != '/'
                invariant
                    n == p@.len(),
                    0 <= k < end <= n,
                    q == p@.subrange(0, end as int),
                    segment_start(q) == segment_start(p@.subrange(0, k as int)),
                    forall|j: int| k <= j < end ==> p@[j] != '/',
                decreases k,
            {
                assert(p@.subrange(0, k as int).drop_last() =~= p@.subrange(0, k - 1));
                assert(p@.subrange(0, k as int).last() == p@[k - 1]);
                k = k - 1;
            }
            proof {
                let pk = p@.subrange(0, k as int);
                if k > 0 {
                    assert(pk.last() == '/');
                } else {
                    assert(pk.len() == 0);
                }
                assert(segment_start(q) == k);
                lemma_segment_start(q);
            }
            let ghost seg = q.subrange(k as int, end as int);
            assert(seg =~= p@.subrange(k as int, end as int));
            if end - k == 1 && p.get_char(k) == '.' {
                assert(seg =~= seq!['.']);
                assert(q.subrange(0, k as int) =~= p@.subrange(0, k as int));
                end = k;
            } else if end - k == 2 && p.get_char(k) == '.' && p.get_char(k + 1) == '.' {
                assert(seg =~= seq!['.', '.']);
                return None;
            } else {
                proof {
                    if seg == seq!['.'] {
                        assert(seg[0] == p@[k as int]);
                    }
                    if seg == seq!['.', '.'] {
                        assert(seg[0] == p@[k as int]);
                        assert(seg[1] == p@[k + 1]);
                    }
                }
                let name = String::from_str(p.substring_char(k, end));
                return Some(name);
            }
        }
    }
}

/// `base` joined with `rel` (see `join_spec`).
pub fn join(base: &str, rel: &str) -> (r: String)
    ensures
        r@ == join_spec(base@, rel@),
{
    let bn = base.unicode_len();
    let rn = rel.unicode_len();
    if rn > 0 && rel.get_char(0) == '/' {
        return String::from_str(rel);
    }
    let mut r = String::from_str(base);
    if bn > 0 && base.get_char(bn - 1) != '/' {
        r.append("/");
        proof {
            reveal_strlit("/");
        }
    }
    r.append(rel);
    r
}


/// A segment between separators is a normal component unless it is empty or `.`.
pub open spec fn is_normal_part(s: Seq<char>) -> bool {
    s.len() > 0 && s != seq!['.']
}

pub open spec fn normal_tail(s: Seq<char>) -> Seq<Seq<char>> {
    if is_normal_part(s) {
        seq![s]
    } else {
        seq![]
    }
}

/// The normal parts of a path: its segments between separators, in order,
/// leaving out empty ones and `.`.
pub open spec fn normal_parts(p: Seq<char>) -> Seq<Seq<char>>
    decreases p.len(),
{
    let k = segment_start(p);
    let tail = normal_tail(p.subrange(k as int, p.len() as int));
    if 0 < k <= p.len() {
        normal_parts(p.subrange(0, k - 1)) + tail
    } else {
        tail
    }
}

/// The components of a path as `Path::components` gives them on Unix: a
/// leading `/` (the root) or a leading `.` component (the current directory),
/// then the normal parts.
pub open spec fn path_components(p: Seq<char>) -> Seq<Seq<char>> {
    if p.len() > 0 && p[0] == '/' {
        seq![seq!['/']] + normal_parts(p)
    } else if p == seq!['.'] || (p.len() > 1 && p[0] == '.' && p[1] == '/') {
        seq![seq!['.']] + normal_parts(p)
    } else {
        normal_parts(p)
    }
}

/// `base` is a leading part of `p`, component by component (what
/// `Path::starts_with` answers).
pub open spec fn path_starts_with(p: Seq<char>, base: Seq<char>) -> bool {
    let c = path_components(base);
    let d = path_components(p);
    c.len() <= d.len() && d.subrange(0, c.len() as int) == c
}

proof fn lemma_segment_start_at(p: Seq<char>, cur: int, i: int)
    requires
        0 <= cur <= i <= p.len(),
        cur == 0 || p[cur - 1] == '/',
        forall|j: int| cur <= j < i ==> p[j] != '/',
    ensures
        segment_start(p.subrange(0, i)) == cur,
    decreases i - cur,
{
    let q = p.subrange(0, i);
    if i > cur {
        assert(q.last() == p[i - 1]);
        assert(q.drop_last() =~= p.subrange(0, i - 1));
        lemma_segment_start_at(p, cur, i - 1);
    } else if cur > 0 {
        assert(q.last() == p[cur - 1]);
    }
}

/// The normal parts of `p`, as strings.
fn normal_parts_exec(p: &str) -> (r: Vec<String>)
    ensures
        r@.map_values(|s: String| s@) == normal_parts(p@),
{
    let n = p.unicode_len();
    let mut parts: Vec<String> = Vec::new();
    let mut cur: usize = 0;
    let mut i: usize = 0;
    while i < n
        invariant
            n == p@.len(),
            cur <= i <= n,
            cur == 0 || p@[cur - 1] == '/',
            forall|j: int| cur <= j < i ==> p@[j] != '/',
            parts@.map_values(|s: String| s@) == (if cur == 0 {
                Seq::<Seq<char>>::empty()
            } else {
                normal_parts(p@.subrange(0, cur - 1))
            }),
        decreases n - i,
    {
        if p.get_char(i) == '/' {
            let ghost before = parts@.map_values(|s: String| s@);
            let ghost q = p@.subrange(0, i as int);
            proof {
                lemma_segment_start_at(p@, cur as int, i as int);
                assert(q.subrange(cur as int, q.len() as int) =~= p@.subrange(cur as int, i as int));
                if cur > 0 {
                    assert(q.subrange(0, cur - 1) =~= p@.subrange(0, cur - 1));
                }
            }
            let len = i - cur;
            let normal = len > 0 && !(len == 1 && p.get_char(cur) == '.');
            proof {
                let seg = p@.subrange(cur as int, i as int);
                if len == 1 && seg == seq!['.'] {
                    assert(seg[0] == p@[cur as int]);
                }
                if len == 1 && p@[cur as int] == '.' {
                    assert(seg =~= seq!['.']);
                }
                assert(normal == is_normal_part(seg));
            }
            if normal {
                let seg = String::from_str(p.substring_char(cur, i));
                parts.push(seg);
            }
            assert(parts@.map_values(|s: String| s@) =~= normal_parts(q));
            cur = i + 1;
        }
        i = i + 1;
    }
    let ghost q = p@.subrange(0, n as int);
    proof {
        lemma_segment_start_at(p@, cur as int, n as int);
        assert(q =~= p@);
        assert(q.subrange(cur as int, q.len() as int) =~= p@.subrange(cur as int, n as int));
        if cur > 0 {
            assert(q.subrange(0, cur - 1) =~= p@.subrange(0, cur - 1));
        }
    }
    let len = n - cur;
    let normal = len > 0 && !(len == 1 && p.get_char(cur) == '.');
    proof {
        let seg = p@.subrange(cur as int, n as int);
        if len == 1 && seg == seq!['.'] {
            assert(seg[0] == p@[cur as int]);
        }
        if len == 1 && p@[cur as int] == '.' {
            assert(seg =~= seq!['.']);
        }
        assert(normal == is_normal_part(seg));
    }
    if normal {
        let seg = String::from_str(p.substring_char(cur, n));
        parts.push(seg);
    }
    assert(parts@.map_values(|s: String| s@) =~= normal_parts(p@));
    parts
}

/// The components of `p`, as strings.
fn components_exec(p: &str) -> (r: Vec<String>)
    ensures
        r@.map_values(|s: String| s@) == path_components(p@),
{
    let n = p.unicode_len();
    let parts = normal_parts_exec(p);
    let mut r: Vec<String> = Vec::new();
    let rooted = n > 0 && p.get_char(0) == '/';
    let current = !rooted && ((n == 1 && p.get_char(0) == '.') || (n > 1 && p.get_char(0) == '.'
        && p.get_char(1) == '/'));
    proof {
        if p@ == seq!['.'] {
            assert(p@[0] == '.');
        }
        if n == 1 && p@[0] == '.' {
            assert(p@ =~= seq!['.']);
        }
    }
    proof {
        reveal_strlit("/");
        reveal_strlit(".");
        assert("/"@ =~= seq!['/']);
        assert("."@ =~= seq!['.']);
    }
    if rooted {
        r.push(String::from_str("/"));
        assert(r@.map_values(|s: String| s@) =~= seq![seq!['/']]);
    } else if current {
        r.push(String::from_str("."));
        assert(r@.map_values(|s: String| s@) =~= seq![seq!['.']]);
    } else {
        assert(r@.map_values(|s: String| s@) =~= Seq::<Seq<char>>::empty());
    }
    let ghost start = r@.map_values(|s: String| s@);
    assert(start == (if rooted {
        seq![seq!['/']]
    } else if current {
        seq![seq!['.']]
    } else {
        Seq::<Seq<char>>::empty()
    }));
    let mut i: usize = 0;
    while i < parts.len()
        invariant
            i <= parts@.len(),
            r@.len() == start.len() + i,
            forall|j: int| 0 <= j < start.len() ==> r@[j]@ == start[j],
            forall|j: int| 0 <= j < i ==> r@[start.len() + j]@ == parts@[j]@,
        decreases parts@.len() - i,
    {
        r.push(parts[i].clone());
        i = i + 1;
    }
    assert(r@.map_values(|s: String| s@) =~= start + parts@.map_values(|s: String| s@));
    r
}

/// Whether `base` is a leading part of `p`, component by component.
pub fn starts_with_path(p: &str, base: &str) -> (b: bool)
    ensures
        b == path_starts_with(p@, base@),
{
    let c = components_exec(base);
    let d = components_exec(p);
    let ghost cv = c@.map_values(|s: String| s@);
    let ghost dv = d@.map_values(|s: String| s@);
    assert(cv.len() == c@.len() && dv.len() == d@.len());
    if c.len() > d.len() {
        return false;
    }
    let mut i: usize = 0;
    while i < c.len()
        invariant
            c@.len() <= d@.len(),
            i <= c@.len(),
            cv == c@.map_values(|s: String| s@),
            dv == d@.map_values(|s: String| s@),
            cv == path_components(base@),
            dv == path_components(p@),
            forall|j: int| 0 <= j < i ==> dv[j] == cv[j],
        decreases c@.len() - i,
    {
        assert(dv[i as int] == d@[i as int]@ && cv[i as int] == c@[i as int]@);
        if !(d[i] == c[i]) {
            assert(dv.subrange(0, cv.len() as int)[i as int] != cv[i as int]);
            return false;
        }
        i = i + 1;
    }
    assert(dv.subrange(0, cv.len() as int) =~= cv);
    true
}


/// Components joined back into a path, each one after the other with
/// `join_spec`.
pub open spec fn join_all(parts: Seq<Seq<char>>) -> Seq<char>
    decreases parts.len(),
{
    if parts.len() == 0 {
        seq![]
    } else {
        join_spec(join_all(parts.drop_last()), parts.last())
    }
}

/// The components of `p` that follow those of `base`.
pub open spec fn components_after(p: Seq<char>, base: Seq<char>) -> Seq<Seq<char>> {
    path_components(p).subrange(path_components(base).len() as int, path_components(p).len() as int)
}

/// `p` taken relative to `base`, when `base` is a leading part of it: the
/// components of `p` after those of `base`, joined with separators.
pub fn strip_path_prefix(p: &str, base: &str) -> (r: Option<String>)
    ensures
        match r {
            Some(rest) => path_starts_with(p@, base@) && rest@ == join_all(components_after(p@, base@)),
            None => !path_starts_with(p@, base@),
        },
{
    if !starts_with_path(p, base) {
        return None;
    }
    let c = components_exec(base);
    let d = components_exec(p);
    let ghost dv = d@.map_values(|s: String| s@);
    assert(dv.len() == d@.len());
    assert(c@.map_values(|s: String| s@).len() == c@.len());
    let start = c.len();
    let mut rest = String::new();
    let mut i: usize = start;
    assert(dv.subrange(start as int, start as int) =~= Seq::<Seq<char>>::empty());
    while i < d.len()
        invariant
            start <= i <= d@.len(),
            dv == d@.map_values(|s: String| s@),
            rest@ == join_all(dv.subrange(start as int, i as int)),
        decreases d@.len() - i,
    {
        assert(dv.subrange(start as int, i + 1).drop_last() =~= dv.subrange(start as int, i as int));
        assert(dv[i as int] == d@[i as int]@);
        rest = join(rest.as_str(), d[i].as_str());
        i = i + 1;
    }
    assert(dv.subrange(start as int, d@.len() as int) =~= components_after(p@, base@));
    Some(rest)
}

} // verus!
