//! Type compatibility: capture anchors at scan time, producer/consumer pairs
//! and their verdicts at check time.

use vstd::prelude::*;

use crate::cloud_storage::{
    CloudRepoData, ManifestRole, ManifestTypeKind, ManifestTypeState, TypeManifestEntry,
    CAPTURE_ARTIFACT_VERSION,
};
use crate::operation::OperationKey;
use crate::sorting::{Keyed, SortKey};
use crate::type_sidecar::{
    AnchorOrigin, CaptureAnchor, CheckPairEndpoint, CheckPairSpec, CheckReply, CheckVerdict,
    InferRequestItem, InlineAlias, PairCheckOutcome, ProbeProtocol, ProbeTypeKind, SymbolRequest,
    VerdictBucket,
};
use crate::{cloud_storage, naming, operation, pairing_laws, paths, sorting, text, type_sidecar};

verus! {

// ---------------------------------------------------------------------------
// Paths
// ---------------------------------------------------------------------------

/// A source path relative to the repository root: the root and a leading `./`
/// taken off where they are there.
pub open spec fn repo_relative_spec(file_path: Seq<char>, repo_root: Seq<char>) -> Seq<char> {
    let root = text::trim_end_char_spec(repo_root, '/');
    let stripped = if root.len() == 0 || root == "."@ {
        file_path
    } else {
        match text::strip_prefix_spec(file_path, root) {
            Some(rest) => match text::strip_prefix_spec(rest, "/"@) {
                Some(tail) => tail,
                None => file_path,
            },
            None => file_path,
        }
    };
    match text::strip_prefix_spec(stripped, "./"@) {
        Some(tail) => tail,
        None => stripped,
    }
}

/// Reduces a source path to its form relative to the repository root. A path
/// that is not under the root passes through.
pub fn repo_relative(file_path: &str, repo_root: &str) -> (r: String)
    ensures
        r@ == repo_relative_spec(file_path@, repo_root@),
{
    let root = text::trim_end_char(repo_root, '/');
    let stripped = if root.as_str().is_empty() || text::same_text(&root, ".") {
        text::owned(file_path)
    } else {
        match text::strip_prefix(file_path, &root) {
            Some(rest) => match text::strip_prefix(&rest, "/") {
                Some(tail) => tail,
                None => text::owned(file_path),
            },
            None => text::owned(file_path),
        }
    };
    match text::strip_prefix(&stripped, "./") {
        Some(tail) => tail,
        None => stripped,
    }
}

/// Whether a path segment is a parameter, in any of the route syntaxes.
pub open spec fn is_param_syntax(seg: Seq<char>) -> bool {
    ||| (seg.len() > 0 && seg[0] == ':')
    ||| (seg.len() > 0 && seg[0] == '{' && seg.last() == '}')
    ||| (seg.len() > 0 && seg[0] == '[' && seg.last() == ']')
    ||| text::has_text(seg, "${"@)
}

/// A segment with every parameter written the same way.
pub open spec fn match_segment(seg: Seq<char>) -> Seq<char> {
    if is_param_syntax(seg) {
        ":param"@
    } else {
        seg
    }
}

/// A path without the trailing slashes after its first character.
pub open spec fn without_trailing_slashes(s: Seq<char>) -> Seq<char>
    decreases s.len(),
{
    if s.len() > 1 && s.last() == '/' {
        without_trailing_slashes(s.drop_last())
    } else {
        s
    }
}

/// A path with each run of slashes reduced to one.
pub open spec fn single_slashes(s: Seq<char>) -> Seq<char>
    decreases s.len(),
{
    if s.len() < 2 {
        s
    } else {
        let front = single_slashes(s.drop_last());
        if s.last() == '/' && s[s.len() - 2] == '/' {
            front
        } else {
            front.push(s.last())
        }
    }
}

/// A path that begins with a slash.
pub open spec fn with_leading_slash(s: Seq<char>) -> Seq<char> {
    if s.len() > 0 && s[0] == '/' {
        s
    } else {
        seq!['/'] + s
    }
}

/// The segments of a lower-cased path, in the form in which they are compared.
pub open spec fn match_segments(lowered: Seq<char>) -> Seq<Seq<char>> {
    text::split_spec(
        single_slashes(with_leading_slash(without_trailing_slashes(lowered))),
        '/',
    ).map_values(|seg: Seq<char>| match_segment(seg))
}

/// A path in the form in which routes are compared.
pub open spec fn normalized_path(input: Seq<char>) -> Seq<char> {
    text::join_spec(match_segments(text::lowercase_text(input)), "/"@)
}

fn drop_trailing_slashes(v: Vec<char>) -> (r: Vec<char>)
    ensures
        r@ == without_trailing_slashes(v@),
{
    let ghost all = v@;
    let mut v = v;
    while v.len() > 1 && v[v.len() - 1] == '/'
        invariant
            without_trailing_slashes(all) == without_trailing_slashes(v@),
        decreases v@.len(),
    {
        let ghost before = v@;
        v.pop();
        assert(v@ =~= before.drop_last());
    }
    v
}

fn collapse_slashes(v: &Vec<char>) -> (r: Vec<char>)
    ensures
        r@ == single_slashes(v@),
{
    let mut out: Vec<char> = Vec::new();
    let mut i: usize = 0;
    assert(v@.take(0) =~= Seq::empty());
    while i < v.len()
        invariant
            i <= v@.len(),
            out@ == single_slashes(v@.take(i as int)),
        decreases v@.len() - i,
    {
        let ghost front = v@.take(i as int);
        let ghost next = v@.take(i + 1);
        assert(next.drop_last() =~= front);
        if i > 0 && v[i] == '/' && v[i - 1] == '/' {
            assert(next[next.len() - 2] == '/');
        } else {
            out.push(v[i]);
            assert(out@ =~= single_slashes(next)) by {
                if next.len() < 2 {
                    assert(front =~= Seq::empty());
                    assert(next =~= seq![v@[i as int]]);
                }
            }
        }
        i += 1;
    }
    assert(v@.take(i as int) =~= v@);
    out
}

/// Whether a path segment is a parameter, in any of the route syntaxes.
pub fn is_param(seg: &str) -> (r: bool)
    ensures
        r == is_param_syntax(seg@),
{
    let v = text::chars_of(seg);
    if v.len() > 0 {
        let first = v[0];
        let last = v[v.len() - 1];
        if first == ':' || (first == '{' && last == '}') || (first == '[' && last == ']') {
            return true;
        }
    }
    text::contains_text(seg, "${")
}

/// The comparable segments of a path that is already in lower case.
pub fn split_match_segments(lowered: &str) -> (r: Vec<String>)
    ensures
        r.deep_view() == match_segments(lowered@),
        r@.len() >= 1,
{
    let v = drop_trailing_slashes(text::chars_of(lowered));
    let mut path: Vec<char> = Vec::new();
    if !(v.len() > 0 && v[0] == '/') {
        path.push('/');
    }
    let mut tail = v;
    let ghost t = tail@;
    path.append(&mut tail);
    assert(path@ =~= with_leading_slash(t));
    let collapsed = collapse_slashes(&path);
    let raw = text::split(&text::text_of(&collapsed), '/');
    let ghost pieces = raw.deep_view();
    let mut out: Vec<String> = Vec::new();
    let mut i: usize = 0;
    while i < raw.len()
        invariant
            i <= raw@.len(),
            pieces == raw.deep_view(),
            out.deep_view() == pieces.take(i as int).map_values(
                |seg: Seq<char>| match_segment(seg),
            ),
        decreases raw@.len() - i,
    {
        let seg = if is_param(&raw[i]) {
            text::owned(":param")
        } else {
            raw[i].clone()
        };
        assert(seg@ == match_segment(pieces[i as int]));
        text::push_deep(&mut out, seg);
        i += 1;
        assert(out.deep_view() =~= pieces.take(i as int).map_values(
            |seg: Seq<char>| match_segment(seg),
        ));
    }
    assert(pieces.take(i as int) =~= pieces);
    assert(out@.len() == out.deep_view().len());
    out
}

/// Route-aware path normalization: lower case, single slashes, no trailing
/// slash, every parameter syntax reduced to `:param`.
pub fn normalize_match_path(input: &str) -> (r: String)
    ensures
        r@ == normalized_path(input@),
{
    let lowered = text::to_lowercase(input);
    let segments = split_match_segments(&lowered);
    text::join(&segments, "/")
}

/// Whether no slash stands directly behind another.
pub open spec fn slashes_apart(s: Seq<char>) -> bool {
    forall|i: int, j: int|
        #![trigger s[i], s[j]]
        0 <= i < s.len() && j == i + 1 && j < s.len() && s[i] == '/' ==> s[j] != '/'
}

proof fn lemma_single_slashes(s: Seq<char>)
    requires
        s.len() > 0,
    ensures
        single_slashes(s).len() > 0,
        single_slashes(s)[0] == s[0],
        single_slashes(s).last() == s.last(),
        slashes_apart(single_slashes(s)),
        s.len() > 1 && s.last() != '/' ==> single_slashes(s).len() > 1,
    decreases s.len(),
{
    if s.len() >= 2 {
        let front = s.drop_last();
        lemma_single_slashes(front);
        let kept = single_slashes(front);
        let r = single_slashes(s);
        if !(s.last() == '/' && s[s.len() - 2] == '/') {
            assert forall|i: int, j: int|
                #![trigger r[i], r[j]]
                0 <= i < r.len() && j == i + 1 && j < r.len() && r[i] == '/' implies r[j]
                != '/' by {
                if j < kept.len() {
                    assert(kept[i] == '/');
                    assert(kept[j] != '/');
                } else {
                    assert(r[i] == kept.last());
                }
            }
        }
    }
}

pub proof fn lemma_slashes_stay(s: Seq<char>)
    requires
        slashes_apart(s),
    ensures
        single_slashes(s) == s,
    decreases s.len(),
{
    if s.len() >= 2 {
        let front = s.drop_last();
        assert forall|i: int, j: int|
            #![trigger front[i], front[j]]
            0 <= i < front.len() && j == i + 1 && j < front.len() && front[i] == '/' implies front[j]
            != '/' by {
            assert(s[i] == '/');
            assert(s[j] != '/');
        }
        lemma_slashes_stay(front);
        assert(s[s.len() - 2] == '/' ==> s[s.len() - 1] != '/');
        assert(front.push(s.last()) =~= s);
    }
}

proof fn lemma_trailing_slashes(s: Seq<char>)
    ensures
        without_trailing_slashes(s).len() > 1 ==> without_trailing_slashes(s).last() != '/',
        without_trailing_slashes(s).len() == 0 <==> s.len() == 0,
    decreases s.len(),
{
    if s.len() > 1 && s.last() == '/' {
        lemma_trailing_slashes(s.drop_last());
    }
}

/// Whether the segments are those of an absolute path without doubled slashes:
/// only the first is empty, and the last where the path is the root.
pub open spec fn are_path_segments(segments: Seq<Seq<char>>) -> bool {
    &&& segments.len() >= 2
    &&& segments[0].len() == 0
    &&& forall|i: int| 1 <= i < segments.len() - 1 ==> (#[trigger] segments[i]).len() > 0
    &&& segments.last().len() == 0 ==> segments.len() == 2
    &&& forall|i: int| 0 <= i < segments.len() ==> !(#[trigger] segments[i]).contains('/')
}

proof fn lemma_split_path(s: Seq<char>)
    requires
        s.len() > 0,
        s[0] == '/',
        slashes_apart(s),
    ensures
        ({
            let p = text::split_spec(s, '/');
            &&& p.len() >= 2
            &&& p[0].len() == 0
            &&& forall|i: int| 1 <= i < p.len() - 1 ==> (#[trigger] p[i]).len() > 0
            &&& (p.last().len() == 0 <==> s.last() == '/')
            &&& forall|i: int| 0 <= i < p.len() ==> !(#[trigger] p[i]).contains('/')
            &&& s.len() == 1 ==> p.len() == 2
        }),
    decreases s.len(),
{
    let front = s.drop_last();
    let p = text::split_spec(s, '/');
    let q = text::split_spec(front, '/');
    if s.len() == 1 {
        assert(q =~= seq![Seq::<char>::empty()]);
        assert(p =~= seq![Seq::<char>::empty(), Seq::<char>::empty()]);
    } else {
        assert forall|i: int, j: int|
            #![trigger front[i], front[j]]
            0 <= i < front.len() && j == i + 1 && j < front.len() && front[i] == '/' implies front[j]
            != '/' by {
            assert(s[i] == '/');
            assert(s[j] != '/');
        }
        lemma_split_path(front);
        if s.last() == '/' {
            assert(s[s.len() - 2] == '/' ==> s[s.len() - 1] != '/');
            assert(q[q.len() - 1].len() > 0);
            assert forall|i: int| 0 <= i < p.len() implies !(#[trigger] p[i]).contains('/') by {
                if i < q.len() {
                    assert(p[i] == q[i]);
                }
            }
            assert forall|i: int| 1 <= i < p.len() - 1 implies (#[trigger] p[i]).len() > 0 by {
                assert(p[i] == q[i]);
            }
        } else {
            let last = q.last().push(s.last());
            assert forall|i: int| 0 <= i < p.len() implies !(#[trigger] p[i]).contains('/') by {
                if i < q.len() - 1 {
                    assert(p[i] == q[i]);
                } else {
                    assert(p[i] == last);
                    assert forall|k: int| 0 <= k < last.len() implies last[k] != '/' by {
                        if k < q.last().len() {
                            assert(!q[q.len() - 1].contains('/'));
                            assert(q.last().contains(q.last()[k]));
                        }
                    }
                }
            }
            assert forall|i: int| 1 <= i < p.len() - 1 implies (#[trigger] p[i]).len() > 0 by {
                assert(p[i] == q[i]);
            }
        }
    }
}

pub proof fn lemma_join_path(segments: Seq<Seq<char>>)
    requires
        segments.len() >= 2,
        segments[0].len() == 0,
        forall|i: int| 1 <= i < segments.len() - 1 ==> (#[trigger] segments[i]).len() > 0,
        forall|i: int| 0 <= i < segments.len() ==> !(#[trigger] segments[i]).contains('/'),
    ensures
        ({
            let s = text::join_spec(segments, seq!['/']);
            &&& s.len() > 0
            &&& s[0] == '/'
            &&& slashes_apart(s)
            &&& s.last() == '/' ==> segments.last().len() == 0
            &&& segments.last().len() == 0 && segments.len() == 2 ==> s =~= seq!['/']
        }),
    decreases segments.len(),
{
    let front = segments.drop_last();
    let joined = text::join_spec(front, seq!['/']);
    let s = text::join_spec(segments, seq!['/']);
    let last = segments.last();
    assert(s =~= joined + seq!['/'] + last);
    assert(segments[segments.len() - 1] == last);
    assert forall|k: int| 0 <= k < last.len() implies last[k] != '/' by {
        assert(last.contains(last[k]));
    }
    if segments.len() == 2 {
        assert(joined =~= segments[0]);
        assert(s =~= seq!['/'] + last);
    } else {
        assert forall|i: int| 0 <= i < front.len() implies !(#[trigger] front[i]).contains('/') by {
            assert(front[i] == segments[i]);
        }
        assert forall|i: int| 1 <= i < front.len() - 1 implies (#[trigger] front[i]).len() > 0 by {
            assert(front[i] == segments[i]);
        }
        lemma_join_path(front);
        assert(segments[segments.len() - 2].len() > 0);
        assert(joined.last() != '/');
    }
    assert forall|i: int, j: int|
        #![trigger s[i], s[j]]
        0 <= i < s.len() && j == i + 1 && j < s.len() && s[i] == '/' implies s[j] != '/' by {
        if j < joined.len() {
            assert(joined[i] == '/');
            assert(joined[j] != '/');
        } else if j == joined.len() {
            assert(s[i] == joined.last());
        } else {
            assert(s[j] == last[j - joined.len() - 1]);
        }
    }
}

pub proof fn lemma_match_segment(seg: Seq<char>)
    ensures
        match_segment(seg).len() == 0 <==> seg.len() == 0,
        match_segment(match_segment(seg)) == match_segment(seg),
        !seg.contains('/') ==> !match_segment(seg).contains('/'),
        match_segment(seg) == ":param"@ || !is_param_syntax(match_segment(seg)),
{
    reveal_strlit(":param");
    reveal_strlit("${");
    if seg.len() == 0 {
        text::lemma_find_from(seg, "${"@, 0);
    }
    let p = ":param"@;
    assert forall|k: int| 0 <= k < p.len() implies p[k] != '/' by {
        assert(p[0] == ':' && p[1] == 'p' && p[2] == 'a' && p[3] == 'r' && p[4] == 'a' && p[5]
            == 'm');
    }
}

/// The comparable segments make an absolute path without doubled slashes, each
/// parameter among them is `:param`, and their path has them again.
pub proof fn law_match_segments(lowered: Seq<char>)
    ensures
        are_path_segments(match_segments(lowered)),
        forall|i: int|
            0 <= i < match_segments(lowered).len() ==> (#[trigger] match_segments(lowered)[i])
                == ":param"@ || !is_param_syntax(match_segments(lowered)[i]),
        text::split_spec(text::join_spec(match_segments(lowered), "/"@), '/') == match_segments(
            lowered,
        ),
        match_segments(text::join_spec(match_segments(lowered), "/"@)) == match_segments(lowered),
{
    reveal_strlit("/");
    assert("/"@ =~= seq!['/']);
    let short = without_trailing_slashes(lowered);
    let led = with_leading_slash(short);
    let c = single_slashes(led);
    lemma_trailing_slashes(lowered);
    lemma_single_slashes(led);
    if c.last() == '/' {
        assert(led.len() == 1);
    }
    lemma_split_path(c);
    let pieces = text::split_spec(c, '/');
    let segs = match_segments(lowered);
    assert forall|i: int| 0 <= i < segs.len() implies (#[trigger] segs[i])
        == match_segment(pieces[i]) && (segs[i].len() == 0 <==> pieces[i].len() == 0)
        && !segs[i].contains('/')
        && match_segment(segs[i]) == segs[i] && (segs[i] == ":param"@ || !is_param_syntax(
        segs[i],
    )) by {
        assert(!pieces[i].contains('/'));
        lemma_match_segment(pieces[i]);
    }
    assert forall|i: int| 1 <= i < segs.len() - 1 implies (#[trigger] segs[i]).len() > 0 by {
        assert(pieces[i].len() > 0);
    }
    assert(segs.last() == segs[segs.len() - 1]);
    assert(are_path_segments(segs));
    text::lemma_split_join(segs, '/');
    lemma_join_path(segs);
    let n = text::join_spec(segs, seq!['/']);
    assert(n.len() > 1 ==> n.last() != '/');
    assert(without_trailing_slashes(n) == n);
    lemma_slashes_stay(n);
    assert(segs.map_values(|seg: Seq<char>| match_segment(seg)) =~= segs);
}

/// A normalized path begins with a slash, holds no doubled slash, ends with a
/// slash only where it is the root, and writes each parameter as `:param`.
/// Normalizing it once more changes nothing: on every ASCII path, and on any
/// other where the normalized path is its own lower-case form.
pub proof fn law_normalized_path(input: Seq<char>)
    ensures
        normalized_path(input).len() > 0,
        normalized_path(input)[0] == '/',
        slashes_apart(normalized_path(input)),
        normalized_path(input).last() == '/' ==> normalized_path(input) == "/"@,
        forall|i: int|
            0 <= i < text::split_spec(normalized_path(input), '/').len() ==> (
            #[trigger] text::split_spec(normalized_path(input), '/')[i]) == ":param"@
                || !is_param_syntax(text::split_spec(normalized_path(input), '/')[i]),
        text::is_ascii_text(input) || text::lowercase_text(normalized_path(input))
            == normalized_path(input) ==> normalized_path(normalized_path(input))
            == normalized_path(input),
{
    reveal_strlit("/");
    assert("/"@ =~= seq!['/']);
    let lowered = text::lowercase_text(input);
    law_match_segments(lowered);
    lemma_join_path(match_segments(lowered));
    if text::is_ascii_text(input) {
        lemma_lowered(input);
        lemma_normalized_stays_lowered(lowered);
        lemma_lowered_stays(normalized_path(input));
    }
}

/// Whether a text is ASCII without capital letters.
pub open spec fn is_lowered(s: Seq<char>) -> bool {
    forall|i: int|
        0 <= i < s.len() ==> (#[trigger] s[i]) as u32 <= 127 && !('A' <= s[i] && s[i] <= 'Z')
}

proof fn lemma_lowered(s: Seq<char>)
    requires
        text::is_ascii_text(s),
    ensures
        is_lowered(text::lowercase_text(s)),
{
    let r = text::lowercase_text(s);
    assert forall|i: int| 0 <= i < r.len() implies (#[trigger] r[i]) as u32 <= 127 && !('A' <= r[i]
        && r[i] <= 'Z') by {
        assert(s[i] as u32 <= 127);
        assert(r[i] == text::ascii_lower(s[i]));
    }
}

proof fn lemma_lowered_stays(s: Seq<char>)
    requires
        is_lowered(s),
    ensures
        text::lowercase_text(s) == s,
{
    assert(text::is_ascii_text(s));
    assert(text::ascii_lower_text(s) =~= s);
}

proof fn lemma_slashes_lowered(s: Seq<char>)
    requires
        is_lowered(s),
    ensures
        is_lowered(without_trailing_slashes(s)),
        is_lowered(with_leading_slash(s)),
        is_lowered(single_slashes(s)),
    decreases s.len(),
{
    if s.len() > 0 {
        let front = s.drop_last();
        assert(is_lowered(front));
        lemma_slashes_lowered(front);
    }
}

proof fn lemma_split_lowered(s: Seq<char>)
    requires
        is_lowered(s),
    ensures
        forall|i: int|
            0 <= i < text::split_spec(s, '/').len() ==> is_lowered(
                #[trigger] text::split_spec(s, '/')[i],
            ),
    decreases s.len(),
{
    let p = text::split_spec(s, '/');
    if s.len() > 0 {
        let front = s.drop_last();
        assert(is_lowered(front));
        lemma_split_lowered(front);
        text::lemma_split_nonempty(front, '/');
        let q = text::split_spec(front, '/');
        assert forall|i: int| 0 <= i < p.len() implies is_lowered(#[trigger] p[i]) by {
            if s.last() == '/' {
                if i < q.len() {
                    assert(p[i] == q[i]);
                }
            } else if i < q.len() - 1 {
                assert(p[i] == q[i]);
            } else {
                assert(is_lowered(q[q.len() - 1]));
                assert(p[i] == q.last().push(s.last()));
            }
        }
    }
}

proof fn lemma_join_lowered(parts: Seq<Seq<char>>)
    requires
        forall|i: int| 0 <= i < parts.len() ==> is_lowered(#[trigger] parts[i]),
    ensures
        is_lowered(text::join_spec(parts, "/"@)),
    decreases parts.len(),
{
    reveal_strlit("/");
    if parts.len() > 1 {
        let front = parts.drop_last();
        assert forall|i: int| 0 <= i < front.len() implies is_lowered(#[trigger] front[i]) by {
            assert(front[i] == parts[i]);
        }
        lemma_join_lowered(front);
        assert(is_lowered(parts[parts.len() - 1]));
    }
}

proof fn lemma_normalized_stays_lowered(lowered: Seq<char>)
    requires
        is_lowered(lowered),
    ensures
        is_lowered(text::join_spec(match_segments(lowered), "/"@)),
{
    reveal_strlit(":param");
    let short = without_trailing_slashes(lowered);
    let led = with_leading_slash(short);
    let c = single_slashes(led);
    lemma_slashes_lowered(lowered);
    lemma_slashes_lowered(short);
    lemma_slashes_lowered(led);
    lemma_split_lowered(c);
    let segs = match_segments(lowered);
    assert forall|i: int| 0 <= i < segs.len() implies is_lowered(#[trigger] segs[i]) by {
        assert(is_lowered(text::split_spec(c, '/')[i]));
    }
    lemma_join_lowered(segs);
}

/// Whether two segments match: equal, or one is a parameter.
pub open spec fn segments_match(x: Seq<char>, y: Seq<char>) -> bool {
    x == y || (x.len() > 0 && x[0] == ':') || (y.len() > 0 && y[0] == ':')
}

/// Whether two normalized paths match: equal, or segment by segment.
pub open spec fn normalized_paths_match(a: Seq<char>, b: Seq<char>) -> bool {
    let sa = text::split_spec(a, '/');
    let sb = text::split_spec(b, '/');
    a == b || (sa.len() == sb.len() && forall|i: int|
        0 <= i < sa.len() ==> segments_match(#[trigger] sa[i], #[trigger] sb[i]))
}

/// Whether two paths match as routes.
pub open spec fn paths_match_spec(a: Seq<char>, b: Seq<char>) -> bool {
    normalized_paths_match(normalized_path(a), normalized_path(b))
}

/// Matching two normalized paths, whatever normalization they come from.
pub fn match_normalized(na: &str, nb: &str) -> (r: bool)
    ensures
        r == normalized_paths_match(na@, nb@),
{
    if text::same_text(na, nb) {
        return true;
    }
    let sa = text::split(na, '/');
    let sb = text::split(nb, '/');
    let ghost da = sa.deep_view();
    let ghost db = sb.deep_view();
    if sa.len() != sb.len() {
        return false;
    }
    let mut i: usize = 0;
    while i < sa.len()
        invariant
            i <= sa@.len(),
            sa@.len() == sb@.len(),
            na@ != nb@,
            da == sa.deep_view(),
            db == sb.deep_view(),
            da == text::split_spec(na@, '/'),
            db == text::split_spec(nb@, '/'),
            forall|j: int| 0 <= j < i ==> segments_match(#[trigger] da[j], #[trigger] db[j]),
        decreases sa@.len() - i,
    {
        if !(text::same_text(&sa[i], &sb[i]) || text::starts_with_char(&sa[i], ':')
            || text::starts_with_char(&sb[i], ':')) {
            assert(!segments_match(da[i as int], db[i as int]));
            return false;
        }
        assert(segments_match(da[i as int], db[i as int]));
        i += 1;
    }
    true
}

/// Route-aware path match: equal normalized paths, or segment by segment with
/// `:param` as a wildcard.
pub fn paths_match(a: &str, b: &str) -> (r: bool)
    ensures
        r == paths_match_spec(a@, b@),
{
    let na = normalize_match_path(a);
    let nb = normalize_match_path(b);
    match_normalized(&na, &nb)
}

/// How specific a producer's route is for a consumer's.
pub open spec fn match_score_spec(producer_path: Seq<char>, consumer_path: Seq<char>) -> u8 {
    if normalized_path(producer_path) == normalized_path(consumer_path) {
        if producer_path == consumer_path {
            100
        } else {
            95
        }
    } else {
        90
    }
}

/// Producer specificity: literal routes outrank parameterized ones.
pub fn match_score(producer_path: &str, consumer_path: &str) -> (r: u8)
    ensures
        r == match_score_spec(producer_path@, consumer_path@),
{
    let np = normalize_match_path(producer_path);
    let nc = normalize_match_path(consumer_path);
    if text::same_text(&np, &nc) {
        if text::same_text(producer_path, consumer_path) {
            100
        } else {
            95
        }
    } else {
        90
    }
}

// ---------------------------------------------------------------------------
// Capture anchors
// ---------------------------------------------------------------------------

/// The anchor that a symbol request asks for, where it has an alias.
pub open spec fn symbol_candidate(request: SymbolRequest, repo_root: Seq<char>) -> Option<
    type_sidecar::AnchorModel,
> {
    match request.alias {
        Some(alias) => Some(
            type_sidecar::AnchorModel::Symbol {
                alias: alias@,
                symbol_name: request.symbol_name@,
                source_file: repo_relative_spec(request.source_file@, repo_root),
                anchor_origin: AnchorOrigin::LlmSymbol,
                array_depth: match request.array_depth {
                    Some(d) if d > 0 => Some(d),
                    _ => None,
                },
            },
        ),
        None => None,
    }
}

/// The line that an infer request is located by: that of the expression, else
/// that of the request, where it is positive.
pub open spec fn infer_line(request: InferRequestItem) -> Option<u32> {
    match request.expression_line {
        Some(l) if l > 0 => Some(l),
        _ => if request.line_number > 0 {
            Some(request.line_number)
        } else {
            None
        },
    }
}

/// The anchor that an infer request asks for, where it has an alias.
pub open spec fn infer_candidate(request: InferRequestItem, repo_root: Seq<char>) -> Option<
    type_sidecar::AnchorModel,
> {
    match request.alias {
        Some(alias) => Some(
            type_sidecar::AnchorModel::Infer {
                alias: alias@,
                source_file: repo_relative_spec(request.file_path@, repo_root),
                anchor_origin: AnchorOrigin::DeterministicInfer,
                span_start: request.span_start,
                span_end: request.span_end,
                line_number: infer_line(request),
                expression_text: request.expression_text.deep_view(),
            },
        ),
        None => None,
    }
}

/// The anchor that a literal type asks for, where it is not blank.
pub open spec fn inline_candidate(inline: InlineAlias) -> Option<type_sidecar::AnchorModel> {
    if text::trim_spec(inline.type_text@).len() == 0 {
        None
    } else {
        Some(
            type_sidecar::AnchorModel::Literal {
                alias: inline.alias@,
                type_text: inline.type_text@,
                anchor_origin: AnchorOrigin::LlmSymbol,
            },
        )
    }
}

/// Every candidate, in the order of precedence: symbols, inferences, literals.
pub open spec fn anchor_candidates(
    explicit: Seq<SymbolRequest>,
    infer: Seq<InferRequestItem>,
    inline_aliases: Seq<InlineAlias>,
    repo_root: Seq<char>,
) -> Seq<Option<type_sidecar::AnchorModel>> {
    explicit.map_values(|r: SymbolRequest| symbol_candidate(r, repo_root)) + infer.map_values(
        |r: InferRequestItem| infer_candidate(r, repo_root),
    ) + inline_aliases.map_values(|a: InlineAlias| inline_candidate(a))
}

/// Whether an alias already has an anchor.
pub open spec fn has_anchor(
    anchors: Seq<type_sidecar::AnchorModel>,
    alias: Seq<char>,
) -> bool {
    exists|i: int|
        0 <= i < anchors.len() && type_sidecar::anchor_alias(#[trigger] anchors[i]) == alias
}

/// The anchors with the candidate added, unless its alias has one.
pub open spec fn with_candidate(
    anchors: Seq<type_sidecar::AnchorModel>,
    candidate: Option<type_sidecar::AnchorModel>,
) -> Seq<type_sidecar::AnchorModel> {
    match candidate {
        Some(a) if !has_anchor(anchors, type_sidecar::anchor_alias(a)) => anchors.push(a),
        _ => anchors,
    }
}

/// The first candidate of each alias.
pub open spec fn first_per_alias(candidates: Seq<Option<type_sidecar::AnchorModel>>) -> Seq<
    type_sidecar::AnchorModel,
>
    decreases candidates.len(),
{
    if candidates.len() == 0 {
        Seq::empty()
    } else {
        with_candidate(first_per_alias(candidates.drop_last()), candidates.last())
    }
}

fn add_anchor(anchors: &mut Vec<CaptureAnchor>, anchor: CaptureAnchor)
    ensures
        final(anchors).deep_view() == with_candidate(
            old(anchors).deep_view(),
            Some(anchor.deep_view()),
        ),
{
    let ghost before = anchors.deep_view();
    let mut i: usize = 0;
    while i < anchors.len()
        invariant
            i <= anchors@.len(),
            anchors.deep_view() == before,
            before == old(anchors).deep_view(),
            forall|j: int|
                0 <= j < i ==> type_sidecar::anchor_alias(#[trigger] before[j])
                    != type_sidecar::anchor_alias(anchor.deep_view()),
        decreases anchors@.len() - i,
    {
        assert(before[i as int] == anchors@[i as int].deep_view());
        if text::same_text(anchors[i].alias(), anchor.alias()) {
            assert(has_anchor(before, type_sidecar::anchor_alias(anchor.deep_view())));
            return ;
        }
        i += 1;
    }
    assert(!has_anchor(before, type_sidecar::anchor_alias(anchor.deep_view())));
    text::push_deep(anchors, anchor);
}

/// Derives one capture anchor for each alias. A symbol request wins over an
/// infer request for the same alias, which wins over a literal; of two of one
/// kind the first wins. Aliases are taken as they are.
pub fn derive_capture_anchors(
    explicit: &Vec<SymbolRequest>,
    infer: &Vec<InferRequestItem>,
    inline_aliases: &Vec<InlineAlias>,
    repo_root: &str,
) -> (r: Vec<CaptureAnchor>)
    ensures
        r.deep_view() == first_per_alias(
            anchor_candidates(explicit@, infer@, inline_aliases@, repo_root@),
        ),
{
    let ghost c = anchor_candidates(explicit@, infer@, inline_aliases@, repo_root@);
    let ghost n: int = explicit@.len() as int;
    let ghost m: int = infer@.len() as int;
    let mut anchors: Vec<CaptureAnchor> = Vec::new();
    assert(c.take(0) =~= Seq::empty());
    assert(anchors.deep_view() =~= Seq::empty());
    let mut i: usize = 0;
    while i < explicit.len()
        invariant
            i <= explicit@.len(),
            n == explicit@.len(),
            c == anchor_candidates(explicit@, infer@, inline_aliases@, repo_root@),
            anchors.deep_view() == first_per_alias(c.take(i as int)),
        decreases explicit@.len() - i,
    {
        let request = &explicit[i];
        assert(c.take(i + 1).drop_last() =~= c.take(i as int));
        assert(c.take(i + 1).last() == symbol_candidate(explicit@[i as int], repo_root@));
        match &request.alias {
            Some(alias) => {
                let array_depth = match request.array_depth {
                    Some(d) => if d > 0 {
                        Some(d)
                    } else {
                        None
                    },
                    None => None,
                };
                let anchor = CaptureAnchor::Symbol {
                    alias: alias.clone(),
                    symbol_name: request.symbol_name.clone(),
                    source_file: repo_relative(&request.source_file, repo_root),
                    anchor_origin: AnchorOrigin::LlmSymbol,
                    array_depth,
                };
                add_anchor(&mut anchors, anchor);
            },
            None => {},
        }
        i += 1;
    }
    let mut j: usize = 0;
    while j < infer.len()
        invariant
            j <= infer@.len(),
            n == explicit@.len(),
            c == anchor_candidates(explicit@, infer@, inline_aliases@, repo_root@),
            anchors.deep_view() == first_per_alias(c.take(n + j)),
        decreases infer@.len() - j,
    {
        let request = &infer[j];
        assert(c.take(n + j + 1).drop_last() =~= c.take(n + j));
        assert(c.take(n + j + 1).last() == infer_candidate(infer@[j as int], repo_root@));
        match &request.alias {
            Some(alias) => {
                let mut line_number: Option<u32> = None;
                if request.line_number > 0 {
                    line_number = Some(request.line_number);
                }
                if let Some(l) = request.expression_line {
                    if l > 0 {
                        line_number = Some(l);
                    }
                }
                let anchor = CaptureAnchor::Infer {
                    alias: alias.clone(),
                    source_file: repo_relative(&request.file_path, repo_root),
                    anchor_origin: AnchorOrigin::DeterministicInfer,
                    span_start: request.span_start,
                    span_end: request.span_end,
                    line_number,
                    expression_text: text::copy_opt(&request.expression_text),
                };
                add_anchor(&mut anchors, anchor);
            },
            None => {},
        }
        j += 1;
    }
    let mut k: usize = 0;
    while k < inline_aliases.len()
        invariant
            k <= inline_aliases@.len(),
            n == explicit@.len(),
            m == infer@.len(),
            c == anchor_candidates(explicit@, infer@, inline_aliases@, repo_root@),
            anchors.deep_view() == first_per_alias(c.take(n + m + k)),
        decreases inline_aliases@.len() - k,
    {
        let inline = &inline_aliases[k];
        assert(c.take(n + m + k + 1).drop_last() =~= c.take(n + m + k));
        assert(c.take(n + m + k + 1).last() == inline_candidate(inline_aliases@[k as int]));
        if !text::trim(&inline.type_text).as_str().is_empty() {
            let anchor = CaptureAnchor::Literal {
                alias: inline.alias.clone(),
                type_text: inline.type_text.clone(),
                anchor_origin: AnchorOrigin::LlmSymbol,
            };
            add_anchor(&mut anchors, anchor);
        }
        k += 1;
    }
    assert(c.take(n + m + k) =~= c);
    anchors
}

/// No two anchors have the same alias.
pub proof fn law_one_anchor_per_alias(candidates: Seq<Option<type_sidecar::AnchorModel>>)
    ensures
        forall|i: int, j: int|
            0 <= i < j < first_per_alias(candidates).len() ==> type_sidecar::anchor_alias(
                #[trigger] first_per_alias(candidates)[i],
            ) != type_sidecar::anchor_alias(#[trigger] first_per_alias(candidates)[j]),
    decreases candidates.len(),
{
    if candidates.len() > 0 {
        law_one_anchor_per_alias(candidates.drop_last());
        let before = first_per_alias(candidates.drop_last());
        let after = first_per_alias(candidates);
        assert forall|i: int, j: int| 0 <= i < j < after.len() implies type_sidecar::anchor_alias(
            #[trigger] after[i],
        ) != type_sidecar::anchor_alias(#[trigger] after[j]) by {
            assert(before[i] == after[i]);
            if j < before.len() {
                assert(before[j] == after[j]);
            }
        }
    }
}

/// An alias has an anchor exactly where some candidate asks for it, and the
/// anchor is the first such candidate.
pub proof fn law_first_candidate_wins(
    candidates: Seq<Option<type_sidecar::AnchorModel>>,
    first: int,
    anchor: type_sidecar::AnchorModel,
)
    requires
        0 <= first < candidates.len(),
        candidates[first] == Some(anchor),
        forall|i: int|
            0 <= i < first ==> ((#[trigger] candidates[i]) matches Some(a)
                ==> type_sidecar::anchor_alias(a) != type_sidecar::anchor_alias(anchor)),
    ensures
        first_per_alias(candidates).contains(anchor),
    decreases candidates.len(),
{
    let front = candidates.drop_last();
    if first < front.len() {
        law_first_candidate_wins(front, first, anchor);
        let before = first_per_alias(front);
        let k = choose|k: int| 0 <= k < before.len() && before[k] == anchor;
        assert(first_per_alias(candidates)[k] == anchor);
    } else {
        lemma_anchors_come_from_candidates(front);
        let before = first_per_alias(front);
        assert(!has_anchor(before, type_sidecar::anchor_alias(anchor))) by {
            if has_anchor(before, type_sidecar::anchor_alias(anchor)) {
                let i = choose|i: int|
                    0 <= i < before.len() && type_sidecar::anchor_alias(#[trigger] before[i])
                        == type_sidecar::anchor_alias(anchor);
                let k = choose|k: int|
                    0 <= k < front.len() && #[trigger] front[k] == Some(before[i]);
                assert(candidates[k] == Some(before[i]));
            }
        }
        assert(first_per_alias(candidates)[before.len() as int] == anchor);
    }
}

proof fn lemma_anchors_come_from_candidates(candidates: Seq<Option<type_sidecar::AnchorModel>>)
    ensures
        forall|i: int|
            0 <= i < first_per_alias(candidates).len() ==> exists|k: int|
                0 <= k < candidates.len() && #[trigger] candidates[k] == Some(
                    #[trigger] first_per_alias(candidates)[i],
                ),
    decreases candidates.len(),
{
    if candidates.len() > 0 {
        let front = candidates.drop_last();
        lemma_anchors_come_from_candidates(front);
        let before = first_per_alias(front);
        let after = first_per_alias(candidates);
        assert forall|i: int| 0 <= i < after.len() implies exists|k: int|
            0 <= k < candidates.len() && #[trigger] candidates[k] == Some(#[trigger] after[i]) by {
            if i < before.len() {
                assert(before[i] == after[i]);
                let k = choose|k: int|
                    0 <= k < front.len() && #[trigger] front[k] == Some(before[i]);
                assert(candidates[k] == Some(after[i]));
            } else {
                assert(candidates[candidates.len() - 1] == Some(after[i]));
            }
        }
    }
}

// ---------------------------------------------------------------------------
// Pairs
// ---------------------------------------------------------------------------

/// The pseudo-method and the identity by which an operation's edge is joined.
pub open spec fn join_identity_spec(key: operation::KeyModel) -> (Seq<char>, Seq<char>) {
    match key {
        operation::KeyModel::Http { method, path } => (text::uppercase_text(method), path),
        operation::KeyModel::Socket { event, direction } => (
            "SOCKET"@,
            operation::direction_label(direction) + "|"@ + event,
        ),
        operation::KeyModel::Graphql { kind, field } => (
            "GRAPHQL"@,
            operation::kind_name(kind) + "|"@ + field,
        ),
        operation::KeyModel::Pubsub { topic } => ("PUBSUB"@, topic),
    }
}

/// The pseudo-method and the identity by which an operation's edge is joined.
pub fn join_identity(key: &OperationKey) -> (r: (String, String))
    ensures
        (r.0@, r.1@) == join_identity_spec(key@),
{
    match key {
        OperationKey::Http { method, path } => (text::to_uppercase(method), path.clone()),
        OperationKey::Socket { event, direction } => (
            text::owned("SOCKET"),
            text::cat3(direction.label(), "|", event),
        ),
        OperationKey::Graphql { kind, field } => (
            text::owned("GRAPHQL"),
            text::cat3(kind.as_str(), "|", field),
        ),
        OperationKey::Pubsub { topic } => (text::owned("PUBSUB"), topic.clone()),
    }
}

/// A manifest entry with the service that it belongs to.
pub struct ServiceEntry<'a> {
    pub service_id: &'a str,
    pub has_surface: bool,
    pub entry: &'a TypeManifestEntry,
}

/// The model of a [`ServiceEntry`].
pub struct SideModel {
    pub service_id: Seq<char>,
    pub has_surface: bool,
    pub entry: TypeManifestEntry,
}

impl<'a> DeepView for ServiceEntry<'a> {
    type V = SideModel;

    open spec fn deep_view(&self) -> SideModel {
        SideModel {
            service_id: self.service_id@,
            has_surface: self.has_surface,
            entry: *self.entry,
        }
    }
}

/// Whether a service has a captured surface of the current version.
pub open spec fn has_surface(repo: CloudRepoData) -> bool {
    match repo.capture_stub {
        Some(stub) => stub.artifact_version == CAPTURE_ARTIFACT_VERSION,
        None => false,
    }
}

/// The entries of one role, as sides of a service.
pub open spec fn sides_of(
    entries: Seq<TypeManifestEntry>,
    service_id: Seq<char>,
    surface: bool,
    role: ManifestRole,
) -> Seq<SideModel>
    decreases entries.len(),
{
    if entries.len() == 0 {
        Seq::empty()
    } else {
        let before = sides_of(entries.drop_last(), service_id, surface, role);
        if entries.last().role == role {
            before.push(SideModel { service_id, has_surface: surface, entry: entries.last() })
        } else {
            before
        }
    }
}

/// The sides of one role over all services, in order.
pub open spec fn all_sides(repos: Seq<CloudRepoData>, role: ManifestRole) -> Seq<SideModel>
    decreases repos.len(),
{
    if repos.len() == 0 {
        Seq::empty()
    } else {
        let before = all_sides(repos.drop_last(), role);
        match repos.last().type_manifest {
            Some(entries) => before + sides_of(
                entries@,
                cloud_storage::service_id_spec(repos.last()),
                has_surface(repos.last()),
                role,
            ),
            None => before,
        }
    }
}

/// How well a producer's entry fits a consumer's: `None` where it does not.
pub open spec fn pair_score(producer: SideModel, consumer: SideModel) -> Option<u8> {
    if producer.service_id == consumer.service_id || producer.entry.type_kind
        != consumer.entry.type_kind {
        None
    } else {
        match (producer.entry.key@, consumer.entry.key@) {
            (
                operation::KeyModel::Http { method: pm, path: pp },
                operation::KeyModel::Http { method: cm, path: cp },
            ) => if text::same_ignoring_ascii_case(pm, cm) && paths_match_spec(pp, cp) {
                Some(match_score_spec(pp, cp))
            } else {
                None
            },
            (p, c) => if p == c {
                Some(100u8)
            } else {
                None
            },
        }
    }
}

/// The best score that any of the producers has for the consumer.
pub open spec fn best_score(producers: Seq<SideModel>, consumer: SideModel) -> Option<u8>
    decreases producers.len(),
{
    if producers.len() == 0 {
        None
    } else {
        let before = best_score(producers.drop_last(), consumer);
        match (before, pair_score(producers.last(), consumer)) {
            (Some(a), Some(b)) => if b > a {
                Some(b)
            } else {
                Some(a)
            },
            (None, b) => b,
            (a, None) => a,
        }
    }
}

/// A probed pair, in the model.
pub struct CheckModel {
    pub pair_key: Seq<char>,
    pub protocol: ProbeProtocol,
    pub type_kind: ProbeTypeKind,
    pub producer: (Seq<char>, Seq<char>),
    pub consumer: (Seq<char>, Seq<char>),
}

/// One built pair: what is probed, and everything that the verdict is joined
/// by afterwards.
pub struct BuiltPair {
    pub spec: CheckPairSpec,
    pub pseudo_method: String,
    pub identity: String,
    pub consumer_file: String,
    pub consumer_line: u32,
    pub type_kind: ManifestTypeKind,
    pub producer_alias: String,
    pub consumer_alias: String,
    pub producer_service: String,
    pub consumer_service: String,
    /// Set where the pair is unverifiable before any probe runs.
    pub pre_verdict: Option<(VerdictBucket, String)>,
}

/// The model of a [`BuiltPair`].
pub struct PairModel {
    pub spec: CheckModel,
    pub pseudo_method: Seq<char>,
    pub identity: Seq<char>,
    pub consumer_file: Seq<char>,
    pub consumer_line: u32,
    pub type_kind: ManifestTypeKind,
    pub producer_alias: Seq<char>,
    pub consumer_alias: Seq<char>,
    pub producer_service: Seq<char>,
    pub consumer_service: Seq<char>,
    pub pre_verdict: Option<(VerdictBucket, Seq<char>)>,
}

/// The model of what is probed.
pub open spec fn check_model(spec: CheckPairSpec) -> CheckModel {
    CheckModel {
        pair_key: spec.pair_key@,
        protocol: spec.protocol,
        type_kind: spec.type_kind,
        producer: (spec.producer.service_name@, spec.producer.alias@),
        consumer: (spec.consumer.service_name@, spec.consumer.alias@),
    }
}

impl DeepView for BuiltPair {
    type V = PairModel;

    open spec fn deep_view(&self) -> PairModel {
        PairModel {
            spec: check_model(self.spec),
            pseudo_method: self.pseudo_method@,
            identity: self.identity@,
            consumer_file: self.consumer_file@,
            consumer_line: self.consumer_line,
            type_kind: self.type_kind,
            producer_alias: self.producer_alias@,
            consumer_alias: self.consumer_alias@,
            producer_service: self.producer_service@,
            consumer_service: self.consumer_service@,
            pre_verdict: match self.pre_verdict {
                Some((bucket, reason)) => Some((bucket, reason@)),
                None => None,
            },
        }
    }
}

impl Keyed for PairModel {
    open spec fn sort_key(&self) -> Seq<Seq<char>> {
        seq![self.spec.pair_key]
    }
}

impl Keyed for BuiltPair {
    open spec fn sort_key(&self) -> Seq<Seq<char>> {
        seq![self.spec.pair_key@]
    }
}

impl SortKey for BuiltPair {
    fn key_at_most(&self, other: &Self) -> (r: bool) {
        sorting::one_text_at_most(self.spec.pair_key.as_str(), other.spec.pair_key.as_str())
    }
}

/// The protocol that an operation is probed under.
pub open spec fn protocol_of(key: operation::KeyModel) -> ProbeProtocol {
    match key {
        operation::KeyModel::Http { .. } => ProbeProtocol::Http,
        operation::KeyModel::Graphql { .. } => ProbeProtocol::Graphql,
        operation::KeyModel::Socket { .. } => ProbeProtocol::Socket,
        operation::KeyModel::Pubsub { .. } => ProbeProtocol::Pubsub,
    }
}

/// What a probe of the protocol compares for a manifest kind: both directions
/// for sockets and topics.
pub open spec fn probe_kind_of(protocol: ProbeProtocol, kind: ManifestTypeKind) -> ProbeTypeKind {
    if protocol == ProbeProtocol::Socket || protocol == ProbeProtocol::Pubsub {
        ProbeTypeKind::Both
    } else {
        match kind {
            ManifestTypeKind::Request => ProbeTypeKind::Request,
            ManifestTypeKind::Response => ProbeTypeKind::Response,
        }
    }
}

/// The key of a pair: both services and both aliases.
pub open spec fn pair_key_spec(
    producer_service: Seq<char>,
    producer_alias: Seq<char>,
    consumer_service: Seq<char>,
    consumer_alias: Seq<char>,
) -> Seq<char> {
    producer_service + "/"@ + producer_alias + "~"@ + consumer_service + "/"@ + consumer_alias
}

/// Why a pair is not probed: a side without a surface, then a side that was
/// not resolved, the producer before the consumer.
pub open spec fn pre_verdict_spec(producer: SideModel, consumer: SideModel) -> Option<
    (VerdictBucket, Seq<char>),
> {
    if !producer.has_surface {
        Some(
            (
                VerdictBucket::Unverifiable,
                "producer service '"@ + producer.service_id
                    + "' has no v2 type surface (older scan or capture degraded) — re-scan it"@,
            ),
        )
    } else if !consumer.has_surface {
        Some(
            (
                VerdictBucket::Unverifiable,
                "consumer service '"@ + consumer.service_id
                    + "' has no v2 type surface (older scan or capture degraded) — re-scan it"@,
            ),
        )
    } else if producer.entry.type_state == ManifestTypeState::Unknown {
        Some((VerdictBucket::Unverifiable, "producer type was not resolved at capture time"@))
    } else if consumer.entry.type_state == ManifestTypeState::Unknown {
        Some((VerdictBucket::Unverifiable, "consumer type was not resolved at capture time"@))
    } else {
        None
    }
}

/// The pair of a producer's and a consumer's entry.
pub open spec fn pair_model(producer: SideModel, consumer: SideModel) -> PairModel {
    let key = producer.entry.key@;
    PairModel {
        spec: CheckModel {
            pair_key: pair_key_spec(
                producer.service_id,
                producer.entry.type_alias@,
                consumer.service_id,
                consumer.entry.type_alias@,
            ),
            protocol: protocol_of(key),
            type_kind: probe_kind_of(protocol_of(key), producer.entry.type_kind),
            producer: (producer.service_id, producer.entry.type_alias@),
            consumer: (consumer.service_id, consumer.entry.type_alias@),
        },
        pseudo_method: join_identity_spec(key).0,
        identity: join_identity_spec(key).1,
        consumer_file: consumer.entry.file_path@,
        consumer_line: consumer.entry.line_number,
        type_kind: producer.entry.type_kind,
        producer_alias: producer.entry.type_alias@,
        consumer_alias: consumer.entry.type_alias@,
        producer_service: producer.service_id,
        consumer_service: consumer.service_id,
        pre_verdict: pre_verdict_spec(producer, consumer),
    }
}

/// The pairs of one consumer: with each producer that has the best score.
pub open spec fn pairs_with(
    producers: Seq<SideModel>,
    best: Option<u8>,
    consumer: SideModel,
) -> Seq<PairModel>
    decreases producers.len(),
{
    if producers.len() == 0 {
        Seq::empty()
    } else {
        let before = pairs_with(producers.drop_last(), best, consumer);
        let score = pair_score(producers.last(), consumer);
        if score is Some && score == best {
            before.push(pair_model(producers.last(), consumer))
        } else {
            before
        }
    }
}

/// The pairs of all the consumers, one consumer after the other.
pub open spec fn pairs_of(producers: Seq<SideModel>, consumers: Seq<SideModel>) -> Seq<PairModel>
    decreases consumers.len(),
{
    if consumers.len() == 0 {
        Seq::empty()
    } else {
        pairs_of(producers, consumers.drop_last()) + pairs_with(
            producers,
            best_score(producers, consumers.last()),
            consumers.last(),
        )
    }
}

/// The pairs to be checked over all services: in the order of their keys, each
/// key once.
pub open spec fn check_pairs(repos: Seq<CloudRepoData>) -> Seq<PairModel> {
    sorting::dedup_by_key_spec(
        sorting::sorted_by_key(
            pairs_of(
                all_sides(repos, ManifestRole::Producer),
                all_sides(repos, ManifestRole::Consumer),
            ),
        ),
    )
}

/// How well a producer's entry fits a consumer's.
fn score_pair(producer: &ServiceEntry, consumer: &ServiceEntry) -> (r: Option<u8>)
    ensures
        r == pair_score(producer.deep_view(), consumer.deep_view()),
{
    if text::same_text(producer.service_id, consumer.service_id) {
        return None;
    }
    if producer.entry.type_kind != consumer.entry.type_kind {
        return None;
    }
    match (&producer.entry.key, &consumer.entry.key) {
        (
            OperationKey::Http { method: pm, path: pp },
            OperationKey::Http { method: cm, path: cp },
        ) => {
            if text::eq_ignore_ascii_case(pm, cm) && paths_match(pp, cp) {
                Some(match_score(pp, cp))
            } else {
                None
            }
        },
        (p, c) => {
            if p.same(c) {
                Some(100)
            } else {
                None
            }
        },
    }
}

/// Builds the pair of a producer's and a consumer's entry.
pub fn build_pair(producer: &ServiceEntry, consumer: &ServiceEntry) -> (r: BuiltPair)
    ensures
        r.deep_view() == pair_model(producer.deep_view(), consumer.deep_view()),
{
    let (pseudo_method, identity) = join_identity(&producer.entry.key);
    let protocol = match &producer.entry.key {
        OperationKey::Http { .. } => ProbeProtocol::Http,
        OperationKey::Graphql { .. } => ProbeProtocol::Graphql,
        OperationKey::Socket { .. } => ProbeProtocol::Socket,
        OperationKey::Pubsub { .. } => ProbeProtocol::Pubsub,
    };
    let type_kind = if protocol == ProbeProtocol::Socket || protocol == ProbeProtocol::Pubsub {
        ProbeTypeKind::Both
    } else {
        match producer.entry.type_kind {
            ManifestTypeKind::Request => ProbeTypeKind::Request,
            ManifestTypeKind::Response => ProbeTypeKind::Response,
        }
    };
    let pair_key = text::cat7(
        producer.service_id,
        "/",
        &producer.entry.type_alias,
        "~",
        consumer.service_id,
        "/",
        &consumer.entry.type_alias,
    );
    let pre_verdict = if !producer.has_surface {
        Some(
            (
                VerdictBucket::Unverifiable,
                text::cat3(
                    "producer service '",
                    producer.service_id,
                    "' has no v2 type surface (older scan or capture degraded) — re-scan it",
                ),
            ),
        )
    } else if !consumer.has_surface {
        Some(
            (
                VerdictBucket::Unverifiable,
                text::cat3(
                    "consumer service '",
                    consumer.service_id,
                    "' has no v2 type surface (older scan or capture degraded) — re-scan it",
                ),
            ),
        )
    } else if producer.entry.type_state == ManifestTypeState::Unknown {
        Some(
            (
                VerdictBucket::Unverifiable,
                text::owned("producer type was not resolved at capture time"),
            ),
        )
    } else if consumer.entry.type_state == ManifestTypeState::Unknown {
        Some(
            (
                VerdictBucket::Unverifiable,
                text::owned("consumer type was not resolved at capture time"),
            ),
        )
    } else {
        None
    };
    BuiltPair {
        spec: CheckPairSpec {
            pair_key,
            protocol,
            type_kind,
            producer: CheckPairEndpoint {
                service_name: text::owned(producer.service_id),
                alias: producer.entry.type_alias.clone(),
            },
            consumer: CheckPairEndpoint {
                service_name: text::owned(consumer.service_id),
                alias: consumer.entry.type_alias.clone(),
            },
        },
        pseudo_method,
        identity,
        consumer_file: consumer.entry.file_path.clone(),
        consumer_line: consumer.entry.line_number,
        type_kind: producer.entry.type_kind,
        producer_alias: producer.entry.type_alias.clone(),
        consumer_alias: consumer.entry.type_alias.clone(),
        producer_service: text::owned(producer.service_id),
        consumer_service: text::owned(consumer.service_id),
        pre_verdict,
    }
}

/// The entries of one role over all services.
fn collect_sides<'a>(repos: &'a Vec<CloudRepoData>, role: ManifestRole) -> (r: Vec<
    ServiceEntry<'a>,
>)
    ensures
        r.deep_view() == all_sides(repos@, role),
{
    let mut sides: Vec<ServiceEntry<'a>> = Vec::new();
    assert(sides.deep_view() =~= Seq::empty());
    let mut i: usize = 0;
    while i < repos.len()
        invariant
            i <= repos@.len(),
            sides.deep_view() == all_sides(repos@.take(i as int), role),
        decreases repos@.len() - i,
    {
        let repo = &repos[i];
        assert(repos@.take(i + 1).drop_last() =~= repos@.take(i as int));
        let surface = match &repo.capture_stub {
            Some(stub) => stub.artifact_version == CAPTURE_ARTIFACT_VERSION,
            None => false,
        };
        match &repo.type_manifest {
            Some(entries) => {
                let ghost before = sides.deep_view();
                let ghost id = cloud_storage::service_id_spec(*repo);
                let mut j: usize = 0;
                assert(entries@.take(0) =~= Seq::empty());
                assert(before + sides_of(entries@.take(0), id, surface, role) =~= before);
                while j < entries.len()
                    invariant
                        j <= entries@.len(),
                        id == cloud_storage::service_id_spec(*repo),
                        sides.deep_view() == before + sides_of(
                            entries@.take(j as int),
                            id,
                            surface,
                            role,
                        ),
                    decreases entries@.len() - j,
                {
                    let entry = &entries[j];
                    let ghost so_far = sides_of(entries@.take(j as int), id, surface, role);
                    assert(entries@.take(j + 1).drop_last() =~= entries@.take(j as int));
                    if entry.role == role {
                        let side = ServiceEntry {
                            service_id: repo.service_id(),
                            has_surface: surface,
                            entry,
                        };
                        assert(before + so_far.push(side.deep_view()) =~= (before + so_far).push(
                            side.deep_view(),
                        ));
                        text::push_deep(&mut sides, side);
                    }
                    j += 1;
                }
                assert(entries@.take(j as int) =~= entries@);
            },
            None => {},
        }
        i += 1;
    }
    assert(repos@.take(i as int) =~= repos@);
    sides
}

/// Appends the pairs of one consumer.
fn add_pairs(
    pairs: &mut Vec<BuiltPair>,
    producers: &Vec<ServiceEntry>,
    consumer: &ServiceEntry,
)
    ensures
        final(pairs).deep_view() == old(pairs).deep_view() + pairs_with(
            producers.deep_view(),
            best_score(producers.deep_view(), consumer.deep_view()),
            consumer.deep_view(),
        ),
{
    let ghost p = producers.deep_view();
    let ghost c = consumer.deep_view();
    let mut best: Option<u8> = None;
    let mut i: usize = 0;
    while i < producers.len()
        invariant
            i <= producers@.len(),
            p == producers.deep_view(),
            c == consumer.deep_view(),
            best == best_score(p.take(i as int), c),
        decreases producers@.len() - i,
    {
        assert(p.take(i + 1).drop_last() =~= p.take(i as int));
        assert(p[i as int] == producers@[i as int].deep_view());
        if let Some(score) = score_pair(&producers[i], consumer) {
            match best {
                Some(b) => {
                    if score > b {
                        best = Some(score);
                    }
                },
                None => {
                    best = Some(score);
                },
            }
        }
        i += 1;
    }
    assert(p.take(i as int) =~= p);
    let ghost before = pairs.deep_view();
    let mut j: usize = 0;
    assert(before + pairs_with(p.take(0), best, c) =~= before);
    while j < producers.len()
        invariant
            j <= producers@.len(),
            p == producers.deep_view(),
            c == consumer.deep_view(),
            pairs.deep_view() == before + pairs_with(p.take(j as int), best, c),
        decreases producers@.len() - j,
    {
        let ghost so_far = pairs_with(p.take(j as int), best, c);
        assert(p.take(j + 1).drop_last() =~= p.take(j as int));
        assert(p[j as int] == producers@[j as int].deep_view());
        let score = score_pair(&producers[j], consumer);
        if score.is_some() && best.is_some() && score.unwrap() == best.unwrap() {
            let pair = build_pair(&producers[j], consumer);
            assert(before + so_far.push(pair.deep_view()) =~= (before + so_far).push(
                pair.deep_view(),
            ));
            text::push_deep(pairs, pair);
        }
        j += 1;
    }
    assert(p.take(j as int) =~= p);
}

/// Builds the pairs to be checked from every service's manifest: cross-service
/// only; HTTP by method and route, the most specific producers of each
/// consumer; the other protocols by exact key; requests with requests and
/// responses with responses. A side that is unresolved or has no surface gives
/// a pair that is unverifiable from the start.
pub fn build_check_pairs(all_repo_data: &Vec<CloudRepoData>) -> (r: Vec<BuiltPair>)
    ensures
        r.deep_view() == check_pairs(all_repo_data@),
        pairing_laws::are_pairs_of(r.deep_view(), all_repo_data@),
{
    let producers = collect_sides(all_repo_data, ManifestRole::Producer);
    let consumers = collect_sides(all_repo_data, ManifestRole::Consumer);
    let ghost p = producers.deep_view();
    let ghost c = consumers.deep_view();
    let mut pairs: Vec<BuiltPair> = Vec::new();
    assert(pairs.deep_view() =~= Seq::empty());
    let mut i: usize = 0;
    while i < consumers.len()
        invariant
            i <= consumers@.len(),
            p == producers.deep_view(),
            c == consumers.deep_view(),
            pairs.deep_view() == pairs_of(p, c.take(i as int)),
        decreases consumers@.len() - i,
    {
        assert(c.take(i + 1).drop_last() =~= c.take(i as int));
        assert(c[i as int] == consumers@[i as int].deep_view());
        add_pairs(&mut pairs, &producers, &consumers[i]);
        i += 1;
    }
    assert(c.take(i as int) =~= c);
    let ghost unsorted = pairs@;
    assert(sorting::models(unsorted) =~= pairs.deep_view());
    proof {
        sorting::lemma_sorted_models::<PairModel, BuiltPair>(unsorted);
        sorting::lemma_dedup_models::<PairModel, BuiltPair>(sorting::sorted_by_key(unsorted));
    }
    let r = sorting::dedup_by_key(sorting::sort_by_key(pairs));
    assert(r.deep_view() =~= sorting::models(r@));
    proof {
        pairing_laws::law_pairs_join_calls_with_producers(all_repo_data@);
    }
    r
}

/// Whether a pair joins two different services.
pub open spec fn crosses_services(pair: PairModel) -> bool {
    pair.producer_service != pair.consumer_service
}

proof fn lemma_pairs_with_cross(producers: Seq<SideModel>, best: Option<u8>, consumer: SideModel)
    ensures
        forall|i: int|
            0 <= i < pairs_with(producers, best, consumer).len() ==> crosses_services(
                #[trigger] pairs_with(producers, best, consumer)[i],
            ),
    decreases producers.len(),
{
    if producers.len() > 0 {
        lemma_pairs_with_cross(producers.drop_last(), best, consumer);
        let before = pairs_with(producers.drop_last(), best, consumer);
        let after = pairs_with(producers, best, consumer);
        assert forall|i: int| 0 <= i < after.len() implies crosses_services(#[trigger] after[i]) by {
            if i < before.len() {
                assert(after[i] == before[i]);
            }
        }
    }
}

proof fn lemma_pairs_of_cross(producers: Seq<SideModel>, consumers: Seq<SideModel>)
    ensures
        forall|i: int|
            0 <= i < pairs_of(producers, consumers).len() ==> crosses_services(
                #[trigger] pairs_of(producers, consumers)[i],
            ),
    decreases consumers.len(),
{
    if consumers.len() > 0 {
        lemma_pairs_of_cross(producers, consumers.drop_last());
        lemma_pairs_with_cross(
            producers,
            best_score(producers, consumers.last()),
            consumers.last(),
        );
        let before = pairs_of(producers, consumers.drop_last());
        let added = pairs_with(
            producers,
            best_score(producers, consumers.last()),
            consumers.last(),
        );
        let after = pairs_of(producers, consumers);
        assert forall|i: int| 0 <= i < after.len() implies crosses_services(#[trigger] after[i]) by {
            if i < before.len() {
                assert(after[i] == before[i]);
            } else {
                assert(after[i] == added[i - before.len()]);
            }
        }
    }
}

/// The pairs stand in the order of their keys, no key occurs twice, and each
/// pair joins two different services.
pub proof fn law_check_pairs(repos: Seq<CloudRepoData>)
    ensures
        sorting::keys_ordered(check_pairs(repos)),
        sorting::keys_distinct(check_pairs(repos)),
        forall|i: int|
            0 <= i < check_pairs(repos).len() ==> crosses_services(
                #[trigger] check_pairs(repos)[i],
            ),
{
    broadcast use vstd::seq_lib::group_to_multiset_ensures;

    let producers = all_sides(repos, ManifestRole::Producer);
    let consumers = all_sides(repos, ManifestRole::Consumer);
    let unsorted = pairs_of(producers, consumers);
    let sorted = sorting::sorted_by_key(unsorted);
    sorting::lemma_sorted_by_key(unsorted);
    sorting::lemma_dedup_by_key(sorted);
    lemma_pairs_of_cross(producers, consumers);
    let r = check_pairs(repos);
    assert forall|i: int| 0 <= i < r.len() implies crosses_services(#[trigger] r[i]) by {
        assert(sorted.contains(r[i]));
        assert(sorted.to_multiset().count(r[i]) > 0);
        assert(unsorted.to_multiset().count(r[i]) > 0);
        assert(unsorted.contains(r[i]));
    }
}

/// The sides of one role in one service.
pub open spec fn repo_sides(repo: CloudRepoData, role: ManifestRole) -> Seq<SideModel> {
    match repo.type_manifest {
        Some(entries) => sides_of(
            entries@,
            cloud_storage::service_id_spec(repo),
            has_surface(repo),
            role,
        ),
        None => Seq::empty(),
    }
}

pub proof fn lemma_side_is_of_a_repo(repos: Seq<CloudRepoData>, role: ManifestRole, side: SideModel)
    ensures
        all_sides(repos, role).contains(side) <==> exists|i: int|
            0 <= i < repos.len() && repo_sides(#[trigger] repos[i], role).contains(side),
    decreases repos.len(),
{
    if repos.len() > 0 {
        let front = repos.drop_last();
        lemma_side_is_of_a_repo(front, role, side);
        let before = all_sides(front, role);
        let added = repo_sides(repos.last(), role);
        let all = all_sides(repos, role);
        assert(all =~= before + added);
        if all.contains(side) {
            let k = choose|k: int| 0 <= k < all.len() && all[k] == side;
            if k < before.len() {
                assert(before[k] == side);
                let i = choose|i: int|
                    0 <= i < front.len() && repo_sides(#[trigger] front[i], role).contains(side);
                assert(repos[i] == front[i]);
            } else {
                assert(added[k - before.len()] == side);
                assert(repo_sides(repos[repos.len() - 1], role).contains(side));
            }
        }
        if exists|i: int| 0 <= i < repos.len() && repo_sides(
            #[trigger] repos[i],
            role,
        ).contains(side) {
            let i = choose|i: int|
                0 <= i < repos.len() && repo_sides(#[trigger] repos[i], role).contains(side);
            if i < front.len() {
                assert(front[i] == repos[i]);
                let k = choose|k: int| 0 <= k < before.len() && before[k] == side;
                assert(all[k] == side);
            } else {
                let k = choose|k: int| 0 <= k < added.len() && added[k] == side;
                assert(all[before.len() + k] == side);
            }
        }
    }
}

proof fn lemma_sides_of_permuted(a: Seq<CloudRepoData>, b: Seq<CloudRepoData>, role: ManifestRole)
    requires
        a.to_multiset() == b.to_multiset(),
    ensures
        forall|side: SideModel| #[trigger]
            all_sides(a, role).contains(side) ==> all_sides(b, role).contains(side),
{
    broadcast use vstd::seq_lib::group_to_multiset_ensures;

    assert forall|side: SideModel| #[trigger] all_sides(a, role).contains(side) implies all_sides(
        b,
        role,
    ).contains(side) by {
        lemma_side_is_of_a_repo(a, role, side);
        lemma_side_is_of_a_repo(b, role, side);
        let i = choose|i: int|
            0 <= i < a.len() && repo_sides(#[trigger] a[i], role).contains(side);
        assert(a.contains(a[i]));
        assert(a.to_multiset().count(a[i]) > 0);
        assert(b.contains(a[i]));
        let j = choose|j: int| 0 <= j < b.len() && b[j] == a[i];
        assert(repo_sides(b[j], role).contains(side));
    }
}

/// Whether two sequences hold the same sides, however often and in whatever
/// order.
pub open spec fn same_sides(a: Seq<SideModel>, b: Seq<SideModel>) -> bool {
    forall|side: SideModel| #[trigger] a.contains(side) <==> b.contains(side)
}

proof fn lemma_best_of_permuted(a: Seq<SideModel>, b: Seq<SideModel>, consumer: SideModel)
    requires
        same_sides(a, b),
    ensures
        best_score(a, consumer) == best_score(b, consumer),
{
    law_best_score(a, consumer);
    law_best_score(b, consumer);
    if best_score(a, consumer) is Some {
        let i = choose|i: int|
            0 <= i < a.len() && pair_score(#[trigger] a[i], consumer) == best_score(a, consumer);
        assert(a.contains(a[i]));
        let j = choose|j: int| 0 <= j < b.len() && b[j] == a[i];
        assert(pair_score(b[j], consumer) is Some);
    }
    if best_score(b, consumer) is Some {
        let i = choose|i: int|
            0 <= i < b.len() && pair_score(#[trigger] b[i], consumer) == best_score(b, consumer);
        assert(b.contains(b[i]));
        assert(a.contains(b[i]));
        let j = choose|j: int| 0 <= j < a.len() && a[j] == b[i];
        assert(pair_score(a[j], consumer) is Some);
    }
}

/// Whether a producer is paired with a consumer at the given best score.
pub open spec fn is_paired(producer: SideModel, best: Option<u8>, consumer: SideModel) -> bool {
    pair_score(producer, consumer) is Some && pair_score(producer, consumer) == best
}

pub proof fn lemma_pair_with_a_producer(
    producers: Seq<SideModel>,
    best: Option<u8>,
    consumer: SideModel,
    pair: PairModel,
)
    ensures
        pairs_with(producers, best, consumer).contains(pair) <==> exists|i: int|
            0 <= i < producers.len() && is_paired(#[trigger] producers[i], best, consumer) && pair
                == pair_model(producers[i], consumer),
    decreases producers.len(),
{
    if producers.len() > 0 {
        let front = producers.drop_last();
        lemma_pair_with_a_producer(front, best, consumer, pair);
        let before = pairs_with(front, best, consumer);
        let all = pairs_with(producers, best, consumer);
        if all.contains(pair) {
            let k = choose|k: int| 0 <= k < all.len() && all[k] == pair;
            if k < before.len() {
                assert(before[k] == pair);
                let i = choose|i: int|
                    0 <= i < front.len() && is_paired(#[trigger] front[i], best, consumer) && pair
                        == pair_model(front[i], consumer);
                assert(producers[i] == front[i]);
            } else {
                assert(is_paired(producers[producers.len() - 1], best, consumer));
            }
        }
        if exists|i: int|
            0 <= i < producers.len() && is_paired(#[trigger] producers[i], best, consumer) && pair
                == pair_model(producers[i], consumer) {
            let i = choose|i: int|
                0 <= i < producers.len() && is_paired(#[trigger] producers[i], best, consumer)
                    && pair == pair_model(producers[i], consumer);
            if i < front.len() {
                assert(front[i] == producers[i]);
                let k = choose|k: int| 0 <= k < before.len() && before[k] == pair;
                assert(all[k] == pair);
            } else {
                assert(all[before.len() as int] == pair);
            }
        }
    }
}

pub proof fn lemma_pair_is_of_a_consumer(
    producers: Seq<SideModel>,
    consumers: Seq<SideModel>,
    pair: PairModel,
)
    ensures
        pairs_of(producers, consumers).contains(pair) <==> exists|i: int|
            0 <= i < consumers.len() && pairs_with(
                producers,
                best_score(producers, consumers[i]),
                #[trigger] consumers[i],
            ).contains(pair),
    decreases consumers.len(),
{
    if consumers.len() > 0 {
        let front = consumers.drop_last();
        lemma_pair_is_of_a_consumer(producers, front, pair);
        let before = pairs_of(producers, front);
        let last = consumers.last();
        let added = pairs_with(producers, best_score(producers, last), last);
        let all = pairs_of(producers, consumers);
        assert(all =~= before + added);
        if all.contains(pair) {
            let k = choose|k: int| 0 <= k < all.len() && all[k] == pair;
            if k < before.len() {
                assert(before[k] == pair);
                let i = choose|i: int|
                    0 <= i < front.len() && pairs_with(
                        producers,
                        best_score(producers, front[i]),
                        #[trigger] front[i],
                    ).contains(pair);
                assert(consumers[i] == front[i]);
            } else {
                assert(added[k - before.len()] == pair);
                assert(consumers[consumers.len() - 1] == last);
            }
        }
        if exists|i: int|
            0 <= i < consumers.len() && pairs_with(
                producers,
                best_score(producers, consumers[i]),
                #[trigger] consumers[i],
            ).contains(pair) {
            let i = choose|i: int|
                0 <= i < consumers.len() && pairs_with(
                    producers,
                    best_score(producers, consumers[i]),
                    #[trigger] consumers[i],
                ).contains(pair);
            if i < front.len() {
                assert(front[i] == consumers[i]);
                let k = choose|k: int| 0 <= k < before.len() && before[k] == pair;
                assert(all[k] == pair);
            } else {
                let k = choose|k: int| 0 <= k < added.len() && added[k] == pair;
                assert(all[before.len() + k] == pair);
            }
        }
    }
}

proof fn lemma_pairs_of_permuted(
    a: Seq<SideModel>,
    b: Seq<SideModel>,
    consumers_a: Seq<SideModel>,
    consumers_b: Seq<SideModel>,
    pair: PairModel,
)
    requires
        same_sides(a, b),
        same_sides(consumers_a, consumers_b),
        pairs_of(a, consumers_a).contains(pair),
    ensures
        pairs_of(b, consumers_b).contains(pair),
{
    lemma_pair_is_of_a_consumer(a, consumers_a, pair);
    lemma_pair_is_of_a_consumer(b, consumers_b, pair);
    let i = choose|i: int|
        0 <= i < consumers_a.len() && pairs_with(
            a,
            best_score(a, consumers_a[i]),
            #[trigger] consumers_a[i],
        ).contains(pair);
    let consumer = consumers_a[i];
    let best = best_score(a, consumer);
    lemma_best_of_permuted(a, b, consumer);
    lemma_pair_with_a_producer(a, best, consumer, pair);
    lemma_pair_with_a_producer(b, best, consumer, pair);
    let m = choose|m: int|
        0 <= m < a.len() && is_paired(#[trigger] a[m], best, consumer) && pair == pair_model(
            a[m],
            consumer,
        );
    assert(a.contains(a[m]));
    let n = choose|n: int| 0 <= n < b.len() && b[n] == a[m];
    assert(is_paired(b[n], best, consumer));
    assert(consumers_a.contains(consumer));
    let j = choose|j: int| 0 <= j < consumers_b.len() && consumers_b[j] == consumer;
    assert(pairs_with(b, best_score(b, consumers_b[j]), consumers_b[j]).contains(pair));
}

/// Which pairs are checked, and in what order, does not depend on the order in
/// which the services are listed.
pub proof fn law_check_pairs_of_permuted(a: Seq<CloudRepoData>, b: Seq<CloudRepoData>)
    requires
        a.to_multiset() == b.to_multiset(),
    ensures
        sorting::keys(check_pairs(a)) == sorting::keys(check_pairs(b)),
{
    let pa = all_sides(a, ManifestRole::Producer);
    let ca = all_sides(a, ManifestRole::Consumer);
    let pb = all_sides(b, ManifestRole::Producer);
    let cb = all_sides(b, ManifestRole::Consumer);
    lemma_sides_of_permuted(a, b, ManifestRole::Producer);
    lemma_sides_of_permuted(b, a, ManifestRole::Producer);
    lemma_sides_of_permuted(a, b, ManifestRole::Consumer);
    lemma_sides_of_permuted(b, a, ManifestRole::Consumer);
    assert(same_sides(pa, pb) && same_sides(pb, pa) && same_sides(ca, cb) && same_sides(cb, ca));
    let ua = pairs_of(pa, ca);
    let ub = pairs_of(pb, cb);
    assert forall|k: Seq<Seq<char>>| #[trigger]
        sorting::has_key(ua, k) <==> sorting::has_key(ub, k) by {
        if sorting::has_key(ua, k) {
            let i = choose|i: int| 0 <= i < ua.len() && (#[trigger] ua[i]).sort_key() == k;
            assert(ua.contains(ua[i]));
            lemma_pairs_of_permuted(pa, pb, ca, cb, ua[i]);
            let j = choose|j: int| 0 <= j < ub.len() && ub[j] == ua[i];
            assert(ub[j].sort_key() == k);
        }
        if sorting::has_key(ub, k) {
            let i = choose|i: int| 0 <= i < ub.len() && (#[trigger] ub[i]).sort_key() == k;
            assert(ub.contains(ub[i]));
            lemma_pairs_of_permuted(pb, pa, cb, ca, ub[i]);
            let j = choose|j: int| 0 <= j < ua.len() && ua[j] == ub[i];
            assert(ua[j].sort_key() == k);
        }
    }
    sorting::lemma_distinct_keys(ua);
    sorting::lemma_distinct_keys(ub);
    law_check_pairs(a);
    law_check_pairs(b);
    let ra = check_pairs(a);
    let rb = check_pairs(b);
    assert forall|k: Seq<Seq<char>>| #[trigger]
        sorting::has_key(ra, k) <==> sorting::has_key(rb, k) by {
        assert(sorting::has_key(ra, k) <==> sorting::has_key(ua, k));
        assert(sorting::has_key(rb, k) <==> sorting::has_key(ub, k));
    }
    sorting::lemma_same_keys(ra, rb);
}

/// Route matching does not depend on which path comes first.
pub proof fn law_paths_match_symmetric(a: Seq<char>, b: Seq<char>)
    ensures
        paths_match_spec(a, b) == paths_match_spec(b, a),
{
    let na = normalized_path(a);
    let nb = normalized_path(b);
    let sa = text::split_spec(na, '/');
    let sb = text::split_spec(nb, '/');
    if normalized_paths_match(na, nb) && na != nb {
        assert forall|i: int| 0 <= i < sb.len() implies segments_match(
            #[trigger] sb[i],
            #[trigger] sa[i],
        ) by {
            assert(segments_match(sa[i], sb[i]));
        }
    }
    if normalized_paths_match(nb, na) && na != nb {
        assert forall|i: int| 0 <= i < sa.len() implies segments_match(
            #[trigger] sa[i],
            #[trigger] sb[i],
        ) by {
            assert(segments_match(sb[i], sa[i]));
        }
    }
}

/// Every path matches itself, with the highest score.
pub proof fn law_path_matches_itself(a: Seq<char>)
    ensures
        paths_match_spec(a, a),
        match_score_spec(a, a) == 100,
{
}

/// The best score is the score of one of the producers, and none has a higher
/// one: a consumer is paired with its most specific producers only.
pub proof fn law_best_score(producers: Seq<SideModel>, consumer: SideModel)
    ensures
        forall|i: int|
            0 <= i < producers.len() ==> (pair_score(#[trigger] producers[i], consumer) matches Some(
                score,
            ) ==> (best_score(producers, consumer) matches Some(best) && score <= best)),
        best_score(producers, consumer) is Some ==> exists|i: int|
            0 <= i < producers.len() && pair_score(#[trigger] producers[i], consumer)
                == best_score(producers, consumer),
    decreases producers.len(),
{
    if producers.len() > 0 {
        let front = producers.drop_last();
        law_best_score(front, consumer);
        assert forall|i: int| 0 <= i < producers.len() implies (pair_score(
            #[trigger] producers[i],
            consumer,
        ) matches Some(score) ==> (best_score(producers, consumer) matches Some(best) && score
            <= best)) by {
            if i < front.len() {
                assert(front[i] == producers[i]);
            }
        }
        if best_score(producers, consumer) is Some {
            if pair_score(producers.last(), consumer) == best_score(producers, consumer) {
                assert(producers[producers.len() - 1] == producers.last());
            } else {
                let i = choose|i: int|
                    0 <= i < front.len() && pair_score(#[trigger] front[i], consumer)
                        == best_score(front, consumer);
                assert(producers[i] == front[i]);
            }
        }
    }
}

// ---------------------------------------------------------------------------
// Verdicts
// ---------------------------------------------------------------------------

/// Whether an outcome carries the pair's identity and the given verdict.
pub open spec fn is_outcome_of(
    outcome: PairCheckOutcome,
    pair: BuiltPair,
    bucket: VerdictBucket,
    gate: Option<Seq<char>>,
    diagnostic: Option<Seq<char>>,
) -> bool {
    &&& outcome.pair_key@ == pair.spec.pair_key@
    &&& outcome.pseudo_method@ == pair.pseudo_method@
    &&& outcome.identity@ == pair.identity@
    &&& outcome.consumer_file@ == pair.consumer_file@
    &&& outcome.consumer_line == pair.consumer_line
    &&& outcome.type_kind == pair.type_kind
    &&& outcome.bucket == bucket
    &&& outcome.gate.deep_view() == gate
    &&& outcome.diagnostic.deep_view() == diagnostic
    &&& outcome.producer_alias@ == pair.producer_alias@
    &&& outcome.consumer_alias@ == pair.consumer_alias@
    &&& outcome.producer_service@ == pair.producer_service@
    &&& outcome.consumer_service@ == pair.consumer_service@
}

fn outcome_for(
    pair: &BuiltPair,
    bucket: VerdictBucket,
    gate: Option<String>,
    diagnostic: Option<String>,
) -> (r: PairCheckOutcome)
    ensures
        is_outcome_of(r, *pair, bucket, gate.deep_view(), diagnostic.deep_view()),
{
    PairCheckOutcome {
        pair_key: pair.spec.pair_key.clone(),
        pseudo_method: pair.pseudo_method.clone(),
        identity: pair.identity.clone(),
        consumer_file: pair.consumer_file.clone(),
        consumer_line: pair.consumer_line,
        type_kind: pair.type_kind,
        bucket,
        gate,
        diagnostic,
        producer_alias: pair.producer_alias.clone(),
        consumer_alias: pair.consumer_alias.clone(),
        producer_service: pair.producer_service.clone(),
        consumer_service: pair.consumer_service.clone(),
    }
}

/// The last verdict given for a key.
pub open spec fn verdict_for(verdicts: Seq<CheckVerdict>, key: Seq<char>) -> Option<CheckVerdict>
    decreases verdicts.len(),
{
    if verdicts.len() == 0 {
        None
    } else if verdicts.last().pair_key@ == key {
        Some(verdicts.last())
    } else {
        verdict_for(verdicts.drop_last(), key)
    }
}

/// The bucket, gate and diagnostic of a pair, given the answer of the check:
/// what was known before it, else the check's own verdict, else unverifiable
/// with the reason.
pub open spec fn verdict_spec(pair: BuiltPair, reply: CheckReply) -> (
    VerdictBucket,
    Option<Seq<char>>,
    Option<Seq<char>>,
) {
    match pair.pre_verdict {
        Some((bucket, reason)) => (bucket, None, Some(reason@)),
        None => match reply {
            CheckReply::Verdicts(verdicts) => match verdict_for(verdicts@, pair.spec.pair_key@) {
                Some(v) => (v.bucket, v.gate.deep_view(), v.diagnostic.deep_view()),
                None => (
                    VerdictBucket::Unverifiable,
                    None,
                    Some("the check returned no verdict for this pair"@),
                ),
            },
            CheckReply::Failed(e) => (
                VerdictBucket::Unverifiable,
                None,
                Some("type check did not run: "@ + e@),
            ),
        },
    }
}

/// The positions of the pairs with or without a verdict before the check.
pub open spec fn pair_positions(pairs: Seq<BuiltPair>, probing: bool) -> Seq<int>
    decreases pairs.len(),
{
    if pairs.len() == 0 {
        Seq::empty()
    } else {
        let before = pair_positions(pairs.drop_last(), probing);
        if (pairs.last().pre_verdict is None) == probing {
            before.push(pairs.len() - 1)
        } else {
            before
        }
    }
}

/// Whether each outcome is that of the pair at the given position.
pub open spec fn outcomes_of(
    outcomes: Seq<PairCheckOutcome>,
    pairs: Seq<BuiltPair>,
    positions: Seq<int>,
    reply: CheckReply,
) -> bool {
    &&& outcomes.len() == positions.len()
    &&& forall|i: int|
        0 <= i < positions.len() ==> {
            let pair = pairs[#[trigger] positions[i]];
            let v = verdict_spec(pair, reply);
            is_outcome_of(#[trigger] outcomes[i], pair, v.0, v.1, v.2)
        }
}

impl Keyed for PairCheckOutcome {
    open spec fn sort_key(&self) -> Seq<Seq<char>> {
        seq![self.pair_key@]
    }
}

impl SortKey for PairCheckOutcome {
    fn key_at_most(&self, other: &Self) -> (r: bool) {
        sorting::one_text_at_most(self.pair_key.as_str(), other.pair_key.as_str())
    }
}

/// What is to be probed: the pairs that have no verdict yet.
pub fn probing_specs(pairs: &Vec<BuiltPair>) -> (r: Vec<CheckPairSpec>)
    ensures
        r@.len() == pair_positions(pairs@, true).len(),
        forall|i: int|
            0 <= i < r@.len() ==> #[trigger] r@[i] == pairs@[pair_positions(
                pairs@,
                true,
            )[i]].spec,
{
    let mut specs: Vec<CheckPairSpec> = Vec::new();
    let mut i: usize = 0;
    while i < pairs.len()
        invariant
            i <= pairs@.len(),
            specs@.len() == pair_positions(pairs@.take(i as int), true).len(),
            forall|k: int|
                0 <= k < specs@.len() ==> 0 <= pair_positions(pairs@.take(i as int), true)[k] < i
                    && #[trigger] specs@[k] == pairs@[pair_positions(
                    pairs@.take(i as int),
                    true,
                )[k]].spec,
        decreases pairs@.len() - i,
    {
        assert(pairs@.take(i + 1).drop_last() =~= pairs@.take(i as int));
        if pairs[i].pre_verdict.is_none() {
            specs.push(pairs[i].spec.clone());
        }
        i += 1;
    }
    assert(pairs@.take(i as int) =~= pairs@);
    specs
}

fn find_verdict<'a>(verdicts: &'a Vec<CheckVerdict>, key: &str) -> (r: Option<&'a CheckVerdict>)
    ensures
        match r {
            Some(v) => verdict_for(verdicts@, key@) == Some(*v),
            None => verdict_for(verdicts@, key@) is None,
        },
{
    let mut i: usize = verdicts.len();
    assert(verdicts@.take(i as int) =~= verdicts@);
    while i > 0
        invariant
            i <= verdicts@.len(),
            verdict_for(verdicts@, key@) == verdict_for(verdicts@.take(i as int), key@),
        decreases i,
    {
        assert(verdicts@.take(i as int).drop_last() =~= verdicts@.take(i - 1));
        if text::same_text(&verdicts[i - 1].pair_key, key) {
            return Some(&verdicts[i - 1]);
        }
        i -= 1;
    }
    None
}

fn judge(pair: &BuiltPair, reply: &CheckReply) -> (r: PairCheckOutcome)
    ensures
        is_outcome_of(
            r,
            *pair,
            verdict_spec(*pair, *reply).0,
            verdict_spec(*pair, *reply).1,
            verdict_spec(*pair, *reply).2,
        ),
{
    match &pair.pre_verdict {
        Some((bucket, reason)) => outcome_for(pair, *bucket, None, Some(reason.clone())),
        None => match reply {
            CheckReply::Verdicts(verdicts) => match find_verdict(verdicts, &pair.spec.pair_key) {
                Some(v) => outcome_for(
                    pair,
                    v.bucket,
                    text::copy_opt(&v.gate),
                    text::copy_opt(&v.diagnostic),
                ),
                None => outcome_for(
                    pair,
                    VerdictBucket::Unverifiable,
                    None,
                    Some(text::owned("the check returned no verdict for this pair")),
                ),
            },
            CheckReply::Failed(e) => outcome_for(
                pair,
                VerdictBucket::Unverifiable,
                None,
                Some(text::cat2("type check did not run: ", e)),
            ),
        },
    }
}

fn add_outcomes(
    outcomes: &mut Vec<PairCheckOutcome>,
    pairs: &Vec<BuiltPair>,
    reply: &CheckReply,
    probing: bool,
    Ghost(done): Ghost<Seq<int>>,
)
    requires
        outcomes_of(old(outcomes)@, pairs@, done, *reply),
    ensures
        outcomes_of(
            final(outcomes)@,
            pairs@,
            done + pair_positions(pairs@, probing),
            *reply,
        ),
{
    let mut i: usize = 0;
    assert(done + pair_positions(pairs@.take(0), probing) =~= done);
    while i < pairs.len()
        invariant
            i <= pairs@.len(),
            outcomes_of(
                outcomes@,
                pairs@,
                done + pair_positions(pairs@.take(i as int), probing),
                *reply,
            ),
        decreases pairs@.len() - i,
    {
        let ghost before = done + pair_positions(pairs@.take(i as int), probing);
        let ghost so_far = outcomes@;
        assert(pairs@.take(i + 1).drop_last() =~= pairs@.take(i as int));
        if pairs[i].pre_verdict.is_none() == probing {
            let outcome = judge(&pairs[i], reply);
            outcomes.push(outcome);
            let ghost after = done + pair_positions(pairs@.take(i + 1), probing);
            assert(after =~= before.push(i as int));
            assert forall|k: int| 0 <= k < after.len() implies {
                let pair = pairs@[#[trigger] after[k]];
                let v = verdict_spec(pair, *reply);
                is_outcome_of(#[trigger] outcomes@[k], pair, v.0, v.1, v.2)
            } by {
                if k < before.len() {
                    assert(after[k] == before[k]);
                    assert(outcomes@[k] == so_far[k]);
                }
            }
        }
        i += 1;
    }
    assert(pairs@.take(i as int) =~= pairs@);
}

/// Joins the answer of the check to the pairs: the outcomes of the pairs that
/// were decided before it and of those that were probed, in the order of their
/// keys. A check that failed, or that says nothing of a pair, leaves the pair
/// unverifiable.
pub fn check_outcomes(pairs: &Vec<BuiltPair>, reply: &CheckReply) -> (r: Vec<PairCheckOutcome>)
    ensures
        exists|unsorted: Seq<PairCheckOutcome>|
            outcomes_of(
                unsorted,
                pairs@,
                pair_positions(pairs@, false) + pair_positions(pairs@, true),
                *reply,
            ) && r@ == #[trigger] sorting::sorted_by_key(unsorted),
        sorting::keys_ordered(r@),
        pairing_laws::judge_all(r@, pairs@, *reply),
{
    let mut outcomes: Vec<PairCheckOutcome> = Vec::new();
    add_outcomes(&mut outcomes, pairs, reply, false, Ghost(Seq::empty()));
    assert(Seq::<int>::empty() + pair_positions(pairs@, false) =~= pair_positions(pairs@, false));
    add_outcomes(&mut outcomes, pairs, reply, true, Ghost(pair_positions(pairs@, false)));
    proof {
        pairing_laws::law_every_pair_is_judged(outcomes@, pairs@, *reply);
    }
    sorting::sort_by_key(outcomes)
}

/// A pair without a verdict from before the check is never read as compatible
/// where the check failed or left the pair out.
pub proof fn law_no_verdict_is_unverifiable(pair: BuiltPair, reply: CheckReply)
    requires
        pair.pre_verdict is None,
        reply matches CheckReply::Verdicts(verdicts) ==> verdict_for(
            verdicts@,
            pair.spec.pair_key@,
        ) is None,
    ensures
        verdict_spec(pair, reply).0 == VerdictBucket::Unverifiable,
        verdict_spec(pair, reply).2 is Some,
{
}

// ---------------------------------------------------------------------------
// Stubs
// ---------------------------------------------------------------------------

/// Where the captured surface of a service is laid out for the check.
#[derive(Debug)]
pub struct StubPlan {
    /// The place of the service among the records.
    pub position: usize,
    pub service_name: String,
    pub stub_dir: String,
}

/// The places of the services that have a captured surface of this version.
pub open spec fn stub_positions(repos: Seq<CloudRepoData>) -> Seq<int>
    decreases repos.len(),
{
    if repos.len() == 0 {
        Seq::empty()
    } else {
        let before = stub_positions(repos.drop_last());
        if has_surface(repos.last()) {
            before.push(repos.len() - 1)
        } else {
            before
        }
    }
}

/// The bases of the stub directories' names.
pub open spec fn stub_bases(repos: Seq<CloudRepoData>) -> Seq<Seq<char>> {
    stub_positions(repos).map_values(
        |i: int| naming::sanitized(cloud_storage::service_id_spec(repos[i])),
    )
}

/// Whether the plan gives each service with a captured surface a directory of
/// its own under the root.
pub open spec fn is_stub_plan(
    plan: Seq<StubPlan>,
    repos: Seq<CloudRepoData>,
    dest_root: Seq<char>,
) -> bool {
    plan.len() == stub_positions(repos).len() && forall|i: int|
        0 <= i < plan.len() ==> {
            &&& (#[trigger] plan[i]).position == stub_positions(repos)[i]
            &&& plan[i].service_name@ == cloud_storage::service_id_spec(
                repos[stub_positions(repos)[i]],
            )
            &&& plan[i].stub_dir@ == paths::joined_path(
                dest_root,
                naming::stems(stub_bases(repos))[i],
            )
        }
}

/// Where the captured surfaces are laid out for the check: for each service
/// that has one, a directory under the root by the service's name, numbered
/// where the name was used before.
pub fn plan_stubs(all_repo_data: &Vec<CloudRepoData>, dest_root: &str) -> (r: Vec<StubPlan>)
    ensures
        is_stub_plan(r@, all_repo_data@, dest_root@),
{
    let ghost repos = all_repo_data@;
    let ghost positions = stub_positions(repos);
    let mut places: Vec<usize> = Vec::new();
    let mut i: usize = 0;
    while i < all_repo_data.len()
        invariant
            i <= all_repo_data@.len(),
            repos == all_repo_data@,
            places@.len() == stub_positions(repos.take(i as int)).len(),
            forall|k: int|
                0 <= k < places@.len() ==> (#[trigger] places@[k]) == stub_positions(
                    repos.take(i as int),
                )[k],
        decreases all_repo_data@.len() - i,
    {
        assert(repos.take(i + 1).drop_last() =~= repos.take(i as int));
        let current = match &all_repo_data[i].capture_stub {
            Some(artifact) => artifact.artifact_version == CAPTURE_ARTIFACT_VERSION,
            None => false,
        };
        if current {
            places.push(i);
        }
        i += 1;
    }
    assert(repos.take(i as int) =~= repos);
    proof {
        lemma_stub_positions_are_current(repos);
    }
    let ghost all_bases = stub_bases(repos);
    let mut bases: Vec<String> = Vec::new();
    assert(bases.deep_view() =~= all_bases.take(0));
    let mut j: usize = 0;
    while j < places.len()
        invariant
            j <= places@.len(),
            repos == all_repo_data@,
            positions == stub_positions(repos),
            places@.len() == positions.len(),
            all_bases == stub_bases(repos),
            forall|k: int|
                0 <= k < places@.len() ==> (#[trigger] places@[k]) == positions[k] && places@[k]
                    < repos.len(),
            bases.deep_view() == all_bases.take(j as int),
        decreases places@.len() - j,
    {
        assert(places@[j as int] == positions[j as int]);
        text::push_deep(&mut bases, naming::sanitize(all_repo_data[places[j]].service_id()));
        j += 1;
        assert(bases.deep_view() =~= all_bases.take(j as int));
    }
    assert(all_bases.take(j as int) =~= all_bases);
    let stems = naming::unique_stems(&bases);
    let ghost names = stems.deep_view();
    let mut plan: Vec<StubPlan> = Vec::new();
    let mut k: usize = 0;
    while k < places.len()
        invariant
            k <= places@.len(),
            repos == all_repo_data@,
            positions == stub_positions(repos),
            places@.len() == positions.len(),
            names == naming::stems(stub_bases(repos)),
            names == stems.deep_view(),
            names.len() == places@.len(),
            forall|n: int|
                0 <= n < places@.len() ==> (#[trigger] places@[n]) == positions[n] && places@[n]
                    < repos.len(),
            plan@.len() == k,
            forall|n: int|
                0 <= n < plan@.len() ==> {
                    &&& (#[trigger] plan@[n]).position == positions[n]
                    &&& plan@[n].service_name@ == cloud_storage::service_id_spec(
                        repos[positions[n]],
                    )
                    &&& plan@[n].stub_dir@ == paths::joined_path(dest_root@, names[n])
                },
        decreases places@.len() - k,
    {
        assert(places@[k as int] == positions[k as int]);
        assert(names[k as int] == stems@[k as int]@);
        plan.push(
            StubPlan {
                position: places[k],
                service_name: text::owned(all_repo_data[places[k]].service_id()),
                stub_dir: paths::join_path(dest_root, &stems[k]),
            },
        );
        k += 1;
    }
    plan
}

/// A service without a captured surface of this version is never laid out.
pub proof fn law_stale_stubs_are_left_out(
    plan: Seq<StubPlan>,
    repos: Seq<CloudRepoData>,
    dest_root: Seq<char>,
    i: int,
)
    requires
        is_stub_plan(plan, repos, dest_root),
        0 <= i < plan.len(),
    ensures
        plan[i].position < repos.len(),
        has_surface(repos[plan[i].position as int]),
{
    lemma_stub_positions_are_current(repos);
    assert(plan[i].position == stub_positions(repos)[i]);
}

/// No two services are laid out in the same directory.
pub proof fn law_stub_dirs_distinct(
    plan: Seq<StubPlan>,
    repos: Seq<CloudRepoData>,
    dest_root: Seq<char>,
    i: int,
    j: int,
)
    requires
        is_stub_plan(plan, repos, dest_root),
        0 <= i < j < plan.len(),
    ensures
        plan[i].stub_dir@ != plan[j].stub_dir@,
{
    let bases = stub_bases(repos);
    let stems = naming::stems(bases);
    let positions = stub_positions(repos);
    naming::law_stems_distinct(bases);
    naming::law_no_separators(stems[i], cloud_storage::service_id_spec(repos[positions[i]]));
    naming::law_no_separators(stems[j], cloud_storage::service_id_spec(repos[positions[j]]));
    assert(plan[i].stub_dir@ == paths::joined_path(dest_root, stems[i]));
    assert(plan[j].stub_dir@ == paths::joined_path(dest_root, stems[j]));
    assert(stems[i].len() > 0 ==> stems[i].contains(stems[i][0]));
    assert(stems[j].len() > 0 ==> stems[j].contains(stems[j][0]));
    let head = if dest_root.len() == 0 || dest_root.last() == '/' {
        dest_root
    } else {
        dest_root + "/"@
    };
    assert(plan[i].stub_dir@ =~= head + stems[i]);
    assert(plan[j].stub_dir@ =~= head + stems[j]);
    assert((head + stems[i]).skip(head.len() as int) =~= stems[i]);
    assert((head + stems[j]).skip(head.len() as int) =~= stems[j]);
}

proof fn lemma_stub_positions_are_current(repos: Seq<CloudRepoData>)
    ensures
        forall|i: int|
            0 <= i < stub_positions(repos).len() ==> 0 <= #[trigger] stub_positions(repos)[i]
                < repos.len() && has_surface(repos[stub_positions(repos)[i]]),
    decreases repos.len(),
{
    if repos.len() > 0 {
        let front = repos.drop_last();
        let before = stub_positions(front);
        lemma_stub_positions_are_current(front);
        assert forall|i: int| 0 <= i < stub_positions(repos).len() implies 0
            <= #[trigger] stub_positions(repos)[i] < repos.len() && has_surface(
            repos[stub_positions(repos)[i]],
        ) by {
            if i < before.len() {
                assert(stub_positions(repos)[i] == before[i]);
                assert(front[before[i]] == repos[before[i]]);
            }
        }
    }
}

} // verus!
