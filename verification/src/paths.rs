//! Paths as text, compared component by component.

use vstd::prelude::*;

use crate::text;

verus! {

/// Whether what stands between two slashes is a component: it is neither empty
/// nor `.`.
pub open spec fn is_component(part: Seq<char>) -> bool {
    part.len() > 0 && part != "."@
}

fn is_part(part: &str) -> (r: bool)
    ensures
        r == is_component(part@),
{
    !(part.is_empty() || text::same_text(part, "."))
}

/// Whether a path begins at the root.
pub open spec fn is_absolute(path: Seq<char>) -> bool {
    path.len() > 0 && path[0] == '/'
}

/// Whether a path begins with a `.` of its own.
pub open spec fn begins_with_dot(path: Seq<char>) -> bool {
    path.len() > 0 && path[0] == '.' && (path.len() == 1 || path[1] == '/')
}

/// What a path begins with in front of its first name: the root, a `.`, or
/// nothing.
pub open spec fn head(path: Seq<char>) -> Seq<Seq<char>> {
    if is_absolute(path) {
        seq!["/"@]
    } else if begins_with_dot(path) {
        seq!["."@]
    } else {
        Seq::empty()
    }
}

/// The components of a path: its head, and the names between slashes.
pub open spec fn components(path: Seq<char>) -> Seq<Seq<char>> {
    head(path) + names(path)
}

/// The names between the slashes of a path.
pub open spec fn names(path: Seq<char>) -> Seq<Seq<char>> {
    kept_components(text::split_spec(path, '/'))
}

/// The parts that are components.
pub open spec fn kept_components(parts: Seq<Seq<char>>) -> Seq<Seq<char>>
    decreases parts.len(),
{
    if parts.len() == 0 {
        Seq::empty()
    } else {
        let before = kept_components(parts.drop_last());
        if is_component(parts.last()) {
            before.push(parts.last())
        } else {
            before
        }
    }
}

/// A path in its plain form: a leading slash where it is absolute, and its
/// names.
pub open spec fn plain_path(path: Seq<char>) -> Seq<char> {
    let joined = text::join_spec(names(path), "/"@);
    if is_absolute(path) {
        "/"@ + joined
    } else {
        joined
    }
}

fn path_names(path: &str) -> (r: Vec<String>)
    ensures
        r.deep_view() == names(path@),
{
    let parts = text::split(path, '/');
    let ghost p = parts.deep_view();
    let mut out: Vec<String> = Vec::new();
    assert(out.deep_view() =~= Seq::empty());
    let mut i: usize = 0;
    while i < parts.len()
        invariant
            i <= parts@.len(),
            p == parts.deep_view(),
            out.deep_view() == kept_components(p.take(i as int)),
        decreases parts@.len() - i,
    {
        assert(p.take(i + 1).drop_last() =~= p.take(i as int));
        assert(p[i as int] == parts@[i as int]@);
        if is_part(&parts[i]) {
            text::push_deep(&mut out, parts[i].clone());
        }
        i += 1;
    }
    assert(p.take(i as int) =~= p);
    out
}

fn leads_with_dot(path: &str) -> (r: bool)
    ensures
        r == begins_with_dot(path@),
{
    proof {
        reveal_strlit(".");
        reveal_strlit("./");
        if path@.len() == 1 && path@[0] == '.' {
            assert(path@ =~= "."@);
        }
        if path@.len() >= 2 && path@[0] == '.' && path@[1] == '/' {
            assert("./"@.is_prefix_of(path@)) by {
                assert(path@.subrange(0, 2) =~= "./"@);
            }
        }
        if "./"@.is_prefix_of(path@) {
            assert(path@[0] == "./"@[0] && path@[1] == "./"@[1]);
        }
    }
    text::same_text(path, ".") || text::starts_with(path, "./")
}

fn path_head(path: &str) -> (r: Vec<String>)
    ensures
        r.deep_view() == head(path@),
{
    let mut out: Vec<String> = Vec::new();
    if text::starts_with_char(path, '/') {
        text::push_deep(&mut out, text::owned("/"));
    } else if leads_with_dot(path) {
        text::push_deep(&mut out, text::owned("."));
    }
    assert(out.deep_view() =~= head(path@));
    out
}

/// The components of a path.
pub fn path_components(path: &str) -> (r: Vec<String>)
    ensures
        r.deep_view() == components(path@),
{
    let mut out = path_head(path);
    let rest = path_names(path);
    let ghost n = rest.deep_view();
    let mut i: usize = 0;
    assert(out.deep_view() =~= head(path@) + n.take(0));
    while i < rest.len()
        invariant
            i <= rest@.len(),
            n == rest.deep_view(),
            out.deep_view() == head(path@) + n.take(i as int),
        decreases rest@.len() - i,
    {
        text::push_deep(&mut out, rest[i].clone());
        i += 1;
        assert(out.deep_view() =~= head(path@) + n.take(i as int));
    }
    assert(n.take(i as int) =~= n);
    out
}

/// A path in its plain form, so that paths which differ by a leading `./` or by
/// doubled slashes become equal.
pub fn normalize_protocol_file(path: &str) -> (r: String)
    ensures
        r@ == plain_path(path@),
{
    let joined = text::join(&path_names(path), "/");
    if text::starts_with_char(path, '/') {
        text::cat2("/", &joined)
    } else {
        joined
    }
}

/// A path joined to a directory: an absolute path stands for itself.
pub open spec fn joined_path(dir: Seq<char>, path: Seq<char>) -> Seq<char> {
    if is_absolute(path) {
        path
    } else if dir.len() == 0 || dir.last() == '/' {
        dir + path
    } else {
        dir + "/"@ + path
    }
}

/// A path joined to a directory.
pub fn join_path(dir: &str, path: &str) -> (r: String)
    ensures
        r@ == joined_path(dir@, path@),
{
    if text::starts_with_char(path, '/') {
        text::owned(path)
    } else if dir.is_empty() || text::ends_with_char(dir, '/') {
        text::cat2(dir, path)
    } else {
        text::cat3(dir, "/", path)
    }
}

/// Whether a path lies under a root: its components begin with those of the
/// root.
pub open spec fn is_under(path: Seq<char>, root: Seq<char>) -> bool {
    components(root).is_prefix_of(components(path))
}

/// What is left of the parts behind the first `n` components.
pub open spec fn after_components(parts: Seq<Seq<char>>, n: nat) -> Seq<Seq<char>>
    decreases parts.len(),
{
    if n == 0 || parts.len() == 0 {
        parts
    } else if is_component(parts[0]) {
        after_components(parts.skip(1), (n - 1) as nat)
    } else {
        after_components(parts.skip(1), n)
    }
}

/// The parts without those in front of the first component.
pub open spec fn from_component(parts: Seq<Seq<char>>) -> Seq<Seq<char>>
    decreases parts.len(),
{
    if parts.len() == 0 || is_component(parts[0]) {
        parts
    } else {
        from_component(parts.skip(1))
    }
}

/// The parts without those behind the last component.
pub open spec fn to_component(parts: Seq<Seq<char>>) -> Seq<Seq<char>>
    decreases parts.len(),
{
    if parts.len() == 0 || is_component(parts.last()) {
        parts
    } else {
        to_component(parts.drop_last())
    }
}

/// What stands between the slashes of a path behind its head.
pub open spec fn body(path: Seq<char>) -> Seq<Seq<char>> {
    text::split_spec(path, '/').skip(head(path).len() as int)
}

/// What stands in a path behind its first `n` components, as it is written
/// there from the next component to the last. With `n` at zero the path keeps
/// its head.
pub open spec fn remainder(path: Seq<char>, n: nat) -> Seq<char> {
    let h = head(path);
    if n == 0 {
        if is_absolute(path) {
            "/"@ + text::join_spec(to_component(body(path)), "/"@)
        } else {
            text::join_spec(h + to_component(body(path)), "/"@)
        }
    } else {
        text::join_spec(
            to_component(from_component(after_components(body(path), (n - h.len()) as nat))),
            "/"@,
        )
    }
}

/// What stands behind the root in a path that is under it; the path itself
/// where it is not.
pub open spec fn relative_to(path: Seq<char>, root: Seq<char>) -> Seq<char> {
    if is_under(path, root) {
        remainder(path, components(root).len())
    } else {
        path
    }
}

/// Whether a path lies under a root.
pub fn lies_under(path: &str, root: &str) -> (r: bool)
    ensures
        r == is_under(path@, root@),
{
    let p = path_components(path);
    let q = path_components(root);
    let ghost cp = p.deep_view();
    let ghost cq = q.deep_view();
    if q.len() > p.len() {
        return false;
    }
    let mut i: usize = 0;
    while i < q.len()
        invariant
            i <= q@.len() <= p@.len(),
            cp == p.deep_view(),
            cq == q.deep_view(),
            cp == components(path@),
            cq == components(root@),
            forall|k: int| 0 <= k < i ==> cp[k] == cq[k],
        decreases q@.len() - i,
    {
        assert(cp[i as int] == p@[i as int]@);
        assert(cq[i as int] == q@[i as int]@);
        if !text::same_text(&p[i], &q[i]) {
            assert(!cq.is_prefix_of(cp)) by {
                if cq.is_prefix_of(cp) {
                    assert(cp.subrange(0, cq.len() as int)[i as int] == cq[i as int]);
                }
            }
            return false;
        }
        i += 1;
    }
    assert(cq =~= cp.subrange(0, cq.len() as int));
    true
}

fn copy_parts(parts: &Vec<String>, from: usize, to: usize) -> (r: Vec<String>)
    requires
        from <= to <= parts@.len(),
    ensures
        r.deep_view() == parts.deep_view().subrange(from as int, to as int),
{
    let ghost p = parts.deep_view();
    let mut out: Vec<String> = Vec::new();
    let mut i: usize = from;
    assert(out.deep_view() =~= p.subrange(from as int, i as int));
    while i < to
        invariant
            from <= i <= to <= parts@.len(),
            p == parts.deep_view(),
            out.deep_view() == p.subrange(from as int, i as int),
        decreases to - i,
    {
        text::push_deep(&mut out, parts[i].clone());
        i += 1;
        assert(out.deep_view() =~= p.subrange(from as int, i as int));
    }
    out
}

fn skip_components(parts: &Vec<String>, from: usize, n: usize) -> (r: usize)
    requires
        from <= parts@.len(),
    ensures
        from <= r <= parts@.len(),
        parts.deep_view().skip(r as int) == after_components(
            parts.deep_view().skip(from as int),
            n as nat,
        ),
{
    let ghost p = parts.deep_view();
    let mut i: usize = from;
    let mut left: usize = n;
    while left > 0 && i < parts.len()
        invariant
            from <= i <= parts@.len(),
            p == parts.deep_view(),
            after_components(p.skip(i as int), left as nat) == after_components(
                p.skip(from as int),
                n as nat,
            ),
        decreases parts@.len() - i,
    {
        assert(p.skip(i as int).skip(1) =~= p.skip(i + 1));
        assert(p.skip(i as int)[0] == parts@[i as int]@);
        if is_part(&parts[i]) {
            left -= 1;
        }
        i += 1;
    }
    i
}

fn first_component(parts: &Vec<String>, from: usize) -> (r: usize)
    requires
        from <= parts@.len(),
    ensures
        from <= r <= parts@.len(),
        parts.deep_view().skip(r as int) == from_component(parts.deep_view().skip(from as int)),
{
    let ghost p = parts.deep_view();
    let mut i: usize = from;
    while i < parts.len() && !is_part(&parts[i])
        invariant
            from <= i <= parts@.len(),
            p == parts.deep_view(),
            from_component(p.skip(i as int)) == from_component(p.skip(from as int)),
        decreases parts@.len() - i,
    {
        assert(p.skip(i as int).skip(1) =~= p.skip(i + 1));
        assert(p.skip(i as int)[0] == parts@[i as int]@);
        i += 1;
    }
    proof {
        if i < parts@.len() {
            assert(p.skip(i as int)[0] == parts@[i as int]@);
        }
    }
    i
}

fn behind_last_component(parts: &Vec<String>, from: usize) -> (r: usize)
    requires
        from <= parts@.len(),
    ensures
        from <= r <= parts@.len(),
        parts.deep_view().subrange(from as int, r as int) == to_component(
            parts.deep_view().skip(from as int),
        ),
{
    let ghost p = parts.deep_view();
    let mut i: usize = parts.len();
    assert(p.subrange(from as int, i as int) =~= p.skip(from as int));
    while i > from && !is_part(&parts[i - 1])
        invariant
            from <= i <= parts@.len(),
            p == parts.deep_view(),
            to_component(p.subrange(from as int, i as int)) == to_component(p.skip(from as int)),
        decreases i,
    {
        let ghost here = p.subrange(from as int, i as int);
        assert(here.drop_last() =~= p.subrange(from as int, i - 1));
        assert(here.last() == parts@[i - 1]@);
        i -= 1;
    }
    proof {
        if i > from {
            assert(p.subrange(from as int, i as int).last() == parts@[i - 1]@);
        }
    }
    i
}

fn path_remainder(path: &str, n: usize) -> (r: String)
    requires
        n == 0 || n >= head(path@).len(),
    ensures
        r@ == remainder(path@, n as nat),
{
    let parts = text::split(path, '/');
    let ghost p = parts.deep_view();
    proof {
        text::lemma_split_nonempty(path@, '/');
    }
    let h: usize = if text::starts_with_char(path, '/') || leads_with_dot(path) {
        1
    } else {
        0
    };
    if n > 0 {
        let skipped = skip_components(&parts, h, n - h);
        let from = first_component(&parts, skipped);
        let to = behind_last_component(&parts, from);
        return text::join(&copy_parts(&parts, from, to), "/");
    }
    let to = behind_last_component(&parts, h);
    if text::starts_with_char(path, '/') {
        text::cat2("/", &text::join(&copy_parts(&parts, h, to), "/"))
    } else {
        let kept = copy_parts(&parts, 0, to);
        proof {
            lemma_dot_part(path@);
            assert(kept.deep_view() =~= head(path@) + to_component(body(path@)));
        }
        text::join(&kept, "/")
    }
}

proof fn lemma_dot_part(path: Seq<char>)
    ensures
        begins_with_dot(path) ==> text::split_spec(path, '/')[0] == "."@,
{
    if begins_with_dot(path) {
        text::lemma_split_first(path, '/', 1);
        reveal_strlit(".");
        assert(path.take(1) =~= "."@);
    }
}

/// What stands behind the root in a path that is under it; the path itself
/// where it is not.
pub fn strip_root(path: &str, root: &str) -> (r: String)
    ensures
        r@ == relative_to(path@, root@),
{
    if lies_under(path, root) {
        let n = path_components(root).len();
        path_remainder(path, n)
    } else {
        text::owned(path)
    }
}

} // verus!
