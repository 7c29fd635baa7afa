//! What holds of the routes that are derived from file paths.

use vstd::prelude::*;

use crate::file_based_router::{ConventionModel, MethodSource, SourceModel};
use crate::{file_based_router, text, text_laws};

verus! {

// ---------------------------------------------------------------------------
// Segments
// ---------------------------------------------------------------------------

/// Whether a segment begins with one text and ends with another.
pub open spec fn begins_and_ends(raw: Seq<char>, open: Seq<char>, close: Seq<char>) -> bool {
    &&& raw.len() >= open.len()
    &&& raw.len() >= close.len()
    &&& forall|i: int| 0 <= i < open.len() ==> raw[i] == #[trigger] open[i]
    &&& forall|i: int|
        0 <= i < close.len() ==> raw[raw.len() - close.len() + i] == #[trigger] close[i]
}

/// Whether a segment only groups its files: the convention knows groups, and the
/// segment stands between the group's delimiters.
pub open spec fn only_groups(c: ConventionModel, raw: Seq<char>) -> bool {
    c.group_open.len() > 0 && begins_and_ends(raw, c.group_open, c.group_close)
}

/// Whether a text is the route's form of a segment: `**` for a catch-all and an
/// optional catch-all, a colon and the name for a parameter, and else the segment
/// itself.
pub open spec fn is_form(c: ConventionModel, raw: Seq<char>, form: Seq<char>) -> bool {
    let open = c.dynamic_open;
    let close = c.dynamic_close;
    if begins_and_ends(raw, open + open, close + close) {
        form == "**"@
    } else if begins_and_ends(raw, open, close) {
        forall|inner: Seq<char>|
            raw == #[trigger] (open + inner) + close ==> {
                if begins_and_ends(inner, c.catch_all_marker, Seq::empty()) {
                    form == "**"@
                } else {
                    is_parameter(form, inner)
                }
            }
    } else {
        form == raw
    }
}

/// Whether a text is a colon and a name without its dots and without the white
/// space round it.
pub open spec fn is_parameter(form: Seq<char>, name: Seq<char>) -> bool {
    form == ":"@ + text::trim_spec(name).filter(|c: char| c != '.')
}

proof fn lemma_delimited(raw: Seq<char>, open: Seq<char>, close: Seq<char>)
    ensures
        file_based_router::delimited(raw, open, close) == begins_and_ends(raw, open, close),
{
    if file_based_router::delimited(raw, open, close) {
        assert forall|i: int| 0 <= i < open.len() implies raw[i] == #[trigger] open[i] by {
            assert(raw.subrange(0, open.len() as int)[i] == open[i]);
        }
        let tail = raw.subrange(raw.len() - close.len(), raw.len() as int);
        assert forall|i: int| 0 <= i < close.len() implies raw[raw.len() - close.len() + i]
            == #[trigger] close[i] by {
            assert(tail[i] == close[i]);
        }
    }
    if begins_and_ends(raw, open, close) {
        assert(open =~= raw.subrange(0, open.len() as int));
        assert(close =~= raw.subrange(raw.len() - close.len(), raw.len() as int));
    }
}

proof fn lemma_dots_removed(s: Seq<char>)
    ensures
        text::replace_char_spec(s, '.', ""@) == s.filter(|c: char| c != '.'),
    decreases s.len(),
{
    reveal_strlit("");
    reveal(Seq::filter);
    let keep = |c: char| c != '.';
    if s.len() > 0 {
        lemma_dots_removed(s.drop_last());
        let before = text::replace_char_spec(s.drop_last(), '.', ""@);
        assert(before + ""@ =~= before);
        assert(s.drop_last().filter(keep) == before);
    }
}

proof fn lemma_route_segment(c: ConventionModel, raw: Seq<char>)
    ensures
        only_groups(c, raw) <==> file_based_router::route_segment(c, raw) is None,
        file_based_router::route_segment(c, raw) matches Some(form) ==> is_form(c, raw, form),
{
    let open = c.dynamic_open;
    let close = c.dynamic_close;
    lemma_delimited(raw, c.group_open, c.group_close);
    lemma_delimited(raw, open + open, close + close);
    lemma_delimited(raw, open, close);
    if let Some(form) = file_based_router::route_segment(c, raw) {
        if !begins_and_ends(raw, open + open, close + close) && begins_and_ends(raw, open, close) {
            assert forall|inner: Seq<char>| raw == #[trigger] (open + inner) + close implies {
                if begins_and_ends(inner, c.catch_all_marker, Seq::empty()) {
                    form == "**"@
                } else {
                    is_parameter(form, inner)
                }
            } by {
                assert(raw.subrange(open.len() as int, raw.len() - close.len()) =~= inner);
                lemma_delimited(inner, c.catch_all_marker, Seq::empty());
                assert(Seq::<char>::empty() =~= inner.subrange(inner.len() as int, inner.len() as int));
                lemma_dots_removed(text::trim_spec(inner));
            }
        }
    }
}

/// A group leaves no trace in the route: wherever it stands among the segments,
/// the path is the same without it.
pub proof fn law_groups_leave_no_trace(
    c: ConventionModel,
    before: Seq<Seq<char>>,
    group: Seq<char>,
    after: Seq<Seq<char>>,
)
    requires
        only_groups(c, group),
    ensures
        file_based_router::route_path(c, before.push(group) + after)
            == file_based_router::route_path(c, before + after),
        file_based_router::full_path(c, before.push(group) + after) == file_based_router::full_path(
            c,
            before + after,
        ),
    decreases after.len(),
{
    let with = before.push(group) + after;
    let without = before + after;
    lemma_route_segment(c, group);
    if after.len() == 0 {
        assert(with.drop_last() =~= before);
        assert(with.last() == group);
        assert(without =~= before);
    } else {
        law_groups_leave_no_trace(c, before, group, after.drop_last());
        assert(with.drop_last() =~= before.push(group) + after.drop_last());
        assert(without.drop_last() =~= before + after.drop_last());
        assert(with.last() == after.last());
        assert(without.last() == after.last());
    }
}

/// A segment that is no group stands at the end of the route, in its form, behind
/// the route of the segments before it.
pub proof fn law_segment_stands_behind(
    c: ConventionModel,
    segments: Seq<Seq<char>>,
    raw: Seq<char>,
) -> (form: Seq<char>)
    requires
        !only_groups(c, raw),
    ensures
        is_form(c, raw, form),
        file_based_router::route_path(c, segments.push(raw)) == file_based_router::route_path(
            c,
            segments,
        ) + "/"@ + form,
{
    lemma_route_segment(c, raw);
    assert(segments.push(raw).drop_last() =~= segments);
    file_based_router::route_segment(c, raw)->0
}

/// Whether each form is that of the segment in the same place.
pub open spec fn are_forms(
    c: ConventionModel,
    segments: Seq<Seq<char>>,
    forms: Seq<Seq<char>>,
) -> bool {
    segments.len() == forms.len() && forall|i: int|
        0 <= i < segments.len() ==> is_form(c, segments[i], #[trigger] forms[i])
}

/// The texts, each behind a slash.
pub open spec fn slashed(parts: Seq<Seq<char>>) -> Seq<char> {
    parts.fold_left(Seq::empty(), |path: Seq<char>, part: Seq<char>| path + "/"@ + part)
}

/// Without groups the route is the forms of all the segments, in their order,
/// each behind a slash.
pub proof fn law_route_holds_every_segment(c: ConventionModel, segments: Seq<Seq<char>>) -> (forms:
    Seq<Seq<char>>)
    requires
        forall|i: int| 0 <= i < segments.len() ==> !only_groups(c, #[trigger] segments[i]),
    ensures
        are_forms(c, segments, forms),
        file_based_router::route_path(c, segments) == slashed(forms),
    decreases segments.len(),
{
    reveal(Seq::fold_left);
    if segments.len() == 0 {
        reveal_strlit("");
        assert(""@ =~= Seq::<char>::empty());
        Seq::empty()
    } else {
        let front = segments.drop_last();
        assert forall|i: int| 0 <= i < front.len() implies !only_groups(c, #[trigger] front[i]) by {
            assert(segments[i] == front[i]);
        }
        let before = law_route_holds_every_segment(c, front);
        assert(!only_groups(c, segments[segments.len() - 1]));
        assert(front.push(segments.last()) =~= segments);
        let form = law_segment_stands_behind(c, front, segments.last());
        let forms = before.push(form);
        assert(forms.drop_last() =~= before);
        assert forall|i: int| 0 <= i < segments.len() implies is_form(
            c,
            segments[i],
            #[trigger] forms[i],
        ) by {
            if i < front.len() {
                assert(forms[i] == before[i]);
                assert(segments[i] == front[i]);
            }
        }
        forms
    }
}

pub proof fn lemma_trim_slashes(s: Seq<char>, slashes: Seq<char>)
    requires
        s.len() == 0 || s[s.len() - 1] != '/',
        forall|i: int| 0 <= i < slashes.len() ==> #[trigger] slashes[i] == '/',
    ensures
        text::trim_end_char_spec(s + slashes, '/') == s,
    decreases slashes.len(),
{
    if slashes.len() == 0 {
        assert(s + slashes =~= s);
    } else {
        assert((s + slashes).last() == slashes[slashes.len() - 1]);
        assert((s + slashes).drop_last() =~= s + slashes.drop_last());
        assert forall|i: int| 0 <= i < slashes.drop_last().len() implies #[trigger]
            slashes.drop_last()[i] == '/' by {
            assert(slashes[i] == '/');
        }
        lemma_trim_slashes(s, slashes.drop_last());
    }
}

/// The prefix stands before the route, without the slashes at its end; where
/// both are empty the path is a single slash.
pub proof fn law_prefix_stands_before(
    c: ConventionModel,
    prefix: Seq<char>,
    slashes: Seq<char>,
    segments: Seq<Seq<char>>,
)
    requires
        c.path_prefix == prefix + slashes,
        prefix.len() == 0 || prefix[prefix.len() - 1] != '/',
        forall|i: int| 0 <= i < slashes.len() ==> #[trigger] slashes[i] == '/',
    ensures
        prefix.len() + file_based_router::route_path(c, segments).len() > 0
            ==> file_based_router::full_path(c, segments) == prefix + file_based_router::route_path(
            c,
            segments,
        ),
        prefix.len() + file_based_router::route_path(c, segments).len() == 0
            ==> file_based_router::full_path(c, segments) == "/"@,
{
    lemma_trim_slashes(prefix, slashes);
}

// ---------------------------------------------------------------------------
// Segments of a file
// ---------------------------------------------------------------------------

/// Whether a text can be one part of a path: it is not empty and holds no
/// separator.
pub open spec fn is_part(s: Seq<char>) -> bool {
    s.len() > 0 && !s.contains('/') && !s.contains('\\')
}

/// Whether each text can be one part of a path.
pub open spec fn are_parts(parts: Seq<Seq<char>>) -> bool {
    forall|i: int| 0 <= i < parts.len() ==> is_part(#[trigger] parts[i])
}

/// The path of a file in directories.
pub open spec fn path_of(dirs: Seq<Seq<char>>, file: Seq<char>) -> Seq<char> {
    text::join_spec(dirs.push(file), "/"@)
}

proof fn lemma_all_nonempty(parts: Seq<Seq<char>>)
    requires
        are_parts(parts),
    ensures
        file_based_router::nonempty(parts) == parts,
    decreases parts.len(),
{
    if parts.len() > 0 {
        let front = parts.drop_last();
        assert forall|i: int| 0 <= i < front.len() implies is_part(#[trigger] front[i]) by {
            assert(parts[i] == front[i]);
        }
        lemma_all_nonempty(front);
        assert(is_part(parts[parts.len() - 1]));
        assert(front.push(parts.last()) =~= parts);
    }
}

proof fn lemma_parts_of_path(dirs: Seq<Seq<char>>, file: Seq<char>)
    requires
        are_parts(dirs),
        is_part(file),
    ensures
        file_based_router::nonempty(text::split_spec(path_of(dirs, file), '/')) == dirs.push(file),
        path_of(dirs, file).len() > 0,
        !path_of(dirs, file).contains('\\'),
        path_of(dirs, file)[0] != '/',
{
    reveal_strlit("/");
    assert("/"@ =~= seq!['/']);
    let parts = dirs.push(file);
    assert forall|i: int| 0 <= i < parts.len() implies is_part(#[trigger] parts[i]) by {
        if i < dirs.len() {
            assert(dirs[i] == parts[i]);
        }
    }
    assert forall|i: int| 0 <= i < parts.len() implies !(#[trigger] parts[i]).contains('/') by {
        assert(is_part(parts[i]));
    }
    text::lemma_split_join(parts, '/');
    lemma_all_nonempty(parts);
    lemma_joined(parts);
}

proof fn lemma_joined(parts: Seq<Seq<char>>)
    requires
        parts.len() > 0,
        are_parts(parts),
    ensures
        text::join_spec(parts, "/"@).len() > 0,
        !text::join_spec(parts, "/"@).contains('\\'),
        text::join_spec(parts, "/"@)[0] == parts[0][0],
        parts[0][0] != '/',
    decreases parts.len(),
{
    reveal_strlit("/");
    let r = text::join_spec(parts, "/"@);
    assert(is_part(parts[0]));
    assert(parts[0].contains(parts[0][0]));
    if parts.len() > 1 {
        let front = parts.drop_last();
        assert forall|i: int| 0 <= i < front.len() implies is_part(#[trigger] front[i]) by {
            assert(parts[i] == front[i]);
        }
        lemma_joined(front);
        let before = text::join_spec(front, "/"@);
        assert(is_part(parts[parts.len() - 1]));
        if r.contains('\\') {
            let i = choose|i: int| 0 <= i < r.len() && r[i] == '\\';
            if i < before.len() {
                assert(before[i] == '\\');
            } else if i == before.len() {
                assert(r[i] == '/');
            } else {
                assert(parts.last()[i - before.len() - 1] == '\\');
                assert(parts.last().contains('\\'));
            }
        }
        assert(front[0] == parts[0]);
        assert(r[0] == before[0]);
    }
}

/// In a convention of fixed file names, a file of such a name has its
/// directories as segments, and no other file is a route.
pub proof fn law_directories_are_the_segments(
    terminal_files: Seq<Seq<char>>,
    dirs: Seq<Seq<char>>,
    file: Seq<char>,
)
    requires
        are_parts(dirs),
        is_part(file),
    ensures
        terminal_files.contains(file) ==> file_based_router::raw_segments_spec(
            SourceModel::DirectoryChain { terminal_files },
            path_of(dirs, file),
        ) == Some(dirs),
        !terminal_files.contains(file) ==> file_based_router::raw_segments_spec(
            SourceModel::DirectoryChain { terminal_files },
            path_of(dirs, file),
        ) is None,
{
    lemma_parts_of_path(dirs, file);
    assert(dirs.push(file).drop_last() =~= dirs);
    lemma_among(file, terminal_files);
}

proof fn lemma_among(s: Seq<char>, texts: Seq<Seq<char>>)
    ensures
        text::among(s, texts) == texts.contains(s),
{
    if text::among(s, texts) {
        let i = choose|i: int| 0 <= i < texts.len() && #[trigger] texts[i] == s;
        assert(texts[i] == s);
    }
    if texts.contains(s) {
        let i = choose|i: int| 0 <= i < texts.len() && texts[i] == s;
        assert(texts[i] == s);
    }
}

/// In a convention of file names, a file of one of the extensions has its
/// directories and its own name as segments; `index` stands for its directory. A
/// file whose name begins with an underscore, or has another extension, is no
/// route.
pub proof fn law_file_name_is_a_segment(
    extensions: Seq<Seq<char>>,
    dirs: Seq<Seq<char>>,
    stem: Seq<char>,
    extension: Seq<char>,
)
    requires
        are_parts(dirs),
        is_part(stem + "."@ + extension),
        !extension.contains('.'),
    ensures
        ({
            let r = file_based_router::raw_segments_spec(
                SourceModel::FileName { extensions },
                path_of(dirs, stem + "."@ + extension),
            );
            let is_route = (stem.len() == 0 || stem[0] != '_') && extensions.contains(extension);
            &&& !is_route ==> r is None
            &&& is_route && stem == "index"@ ==> r == Some(dirs)
            &&& is_route && stem != "index"@ ==> r == Some(dirs.push(stem))
        }),
{
    reveal_strlit(".");
    let file = stem + "."@ + extension;
    lemma_parts_of_path(dirs, file);
    assert(dirs.push(file).drop_last() =~= dirs);
    text::lemma_last_index(file, '.');
    let at = text::last_index(file, '.');
    assert(file[stem.len() as int] == '.');
    if at > stem.len() {
        assert(extension[at - stem.len() - 1] == file[at]);
        assert(extension.contains(extension[at - stem.len() - 1]));
    }
    assert(at == stem.len());
    assert(file.take(at) =~= stem);
    assert(file.skip(at + 1) =~= extension);
    lemma_among(extension, extensions);
    if stem.len() > 0 {
        assert(file[0] == stem[0]);
    } else {
        assert(file[0] == '.');
    }
}

/// A file without an extension is no route in a convention of file names.
pub proof fn law_extension_needed(
    extensions: Seq<Seq<char>>,
    dirs: Seq<Seq<char>>,
    file: Seq<char>,
)
    requires
        are_parts(dirs),
        is_part(file),
        !file.contains('.'),
    ensures
        file_based_router::raw_segments_spec(
            SourceModel::FileName { extensions },
            path_of(dirs, file),
        ) is None,
{
    lemma_parts_of_path(dirs, file);
    text::lemma_last_index(file, '.');
    let at = text::last_index(file, '.');
    if at >= 0 {
        assert(file.contains(file[at]));
    }
}

// ---------------------------------------------------------------------------
// Roots
// ---------------------------------------------------------------------------

/// Whether a root is written without slashes round it.
pub open spec fn is_plain_root(root: Seq<char>) -> bool {
    root.len() > 0 && root[0] != '/' && root[root.len() - 1] != '/'
}

/// A path is under a root where it is the root, a slash and what is left of it,
/// or the root itself.
pub proof fn law_under_a_root(root: Seq<char>, rel: Seq<char>, rest: Seq<char>)
    requires
        is_plain_root(root),
    ensures
        file_based_router::rest_under(root, rel) == Some(rest) <==> rel == root + "/"@ + rest || (
        rel == root && rest.len() == 0),
{
    reveal_strlit("/");
    let r = text::trim_end_char_spec(text::trim_start_char_spec(root, '/'), '/');
    assert(r == root);
    if file_based_router::rest_under(root, rel) == Some(rest) {
        let behind = rel.skip(root.len() as int);
        assert(root =~= rel.subrange(0, root.len() as int));
        assert(rel =~= root + behind);
        if behind.len() == 0 {
            assert(rel =~= root);
        } else {
            assert("/"@ =~= behind.subrange(0, 1));
            assert(behind =~= "/"@ + behind.skip(1));
            assert(rel =~= root + "/"@ + rest);
        }
    }
    if rel == root + "/"@ + rest {
        let behind = "/"@ + rest;
        assert(root =~= rel.subrange(0, root.len() as int));
        assert(rel.skip(root.len() as int) =~= behind);
        assert("/"@ =~= behind.subrange(0, 1));
        assert(behind.skip(1) =~= rest);
    }
    if rel == root && rest.len() == 0 {
        assert(root =~= rel.subrange(0, root.len() as int));
        assert(rel.skip(root.len() as int) =~= Seq::empty());
        assert(rest =~= Seq::empty());
    }
}

// ---------------------------------------------------------------------------
// The built-in conventions
// ---------------------------------------------------------------------------

proof fn lemma_no_backslash(s: Seq<char>)
    requires
        !s.contains('\\'),
    ensures
        text::replace_char_spec(s, '\\', "/"@) == s,
    decreases s.len(),
{
    if s.len() > 0 {
        assert(s.contains(s[s.len() - 1]));
        if s.drop_last().contains('\\') {
            let i = choose|i: int| 0 <= i < s.drop_last().len() && s.drop_last()[i] == '\\';
            assert(s[i] == '\\');
        }
        lemma_no_backslash(s.drop_last());
        assert(s.drop_last().push(s.last()) =~= s);
    }
}

proof fn lemma_normal(rel: Seq<char>)
    requires
        rel.len() > 0,
        rel[0] != '/',
        rel[0] != '.',
        !rel.contains('\\'),
    ensures
        file_based_router::normalized_rel(rel) == rel,
{
    reveal_strlit("./");
    lemma_no_backslash(rel);
    if "./"@.is_prefix_of(rel) {
        assert("./"@[0] == rel.subrange(0, 2)[0]);
    }
}

proof fn lemma_under(root: Seq<char>, path: Seq<char>)
    requires
        path.len() > 0,
        !root.contains('\\'),
        !path.contains('\\'),
        is_plain_root(root),
        root[0] != '.',
    ensures
        file_based_router::normalized_rel(root + "/"@ + path) == root + "/"@ + path,
{
    reveal_strlit("/");
    let rel = root + "/"@ + path;
    if rel.contains('\\') {
        let i = choose|i: int| 0 <= i < rel.len() && rel[i] == '\\';
        if i < root.len() {
            assert(root[i] == '\\');
        } else if i > root.len() {
            assert(path[i - root.len() - 1] == '\\');
        }
    }
    assert(rel[0] == root[0]);
    lemma_normal(rel);
}

proof fn lemma_not_under(root: Seq<char>, rel: Seq<char>, i: int)
    requires
        is_plain_root(root),
        0 <= i < root.len(),
        i < rel.len(),
        rel[i] != root[i],
    ensures
        file_based_router::rest_under(root, rel) is None,
{
    if file_based_router::rest_under(root, rel) is Some {
        let rest = file_based_router::rest_under(root, rel)->0;
        law_under_a_root(root, rel, rest);
        assert((root + "/"@ + rest)[i] == root[i]);
    }
}

proof fn lemma_one_of_two(a: Seq<char>, b: Seq<char>, root: Seq<char>, rest: Seq<char>)
    requires
        is_plain_root(a),
        is_plain_root(b),
        a[0] != b[0],
        root == a || root == b,
    ensures
        file_based_router::strip_root_spec(seq![a, b], root + "/"@ + rest) == Some(rest),
{
    let rel = root + "/"@ + rest;
    assert(rel[0] == root[0]);
    law_under_a_root(root, rel, rest);
    if root == a {
        lemma_not_under(b, rel, 0);
    } else {
        lemma_not_under(a, rel, 0);
    }
    let roots = seq![a, b];
    assert(roots.drop_last() =~= seq![a]);
    assert(seq![a].drop_last() =~= Seq::<Seq<char>>::empty());
    reveal_with_fuel(file_based_router::strip_root_spec, 3);
}

proof fn lemma_only_convention(c: ConventionModel, rel: Seq<char>, segments: Seq<Seq<char>>)
    requires
        file_based_router::normalized_rel(rel) == rel,
        file_based_router::claimed_segments(c, rel) == Some(segments),
    ensures
        file_based_router::route_spec(seq![c], rel) == Some(
            (file_based_router::full_path(c, segments), c.method_source, c.name),
        ),
{
    let only = seq![c];
    assert(only.drop_last() =~= Seq::<ConventionModel>::empty());
    assert(only[0] == c);
    reveal_with_fuel(file_based_router::claimant, 2);
}

proof fn lemma_no_claim(c: ConventionModel, rel: Seq<char>)
    requires
        file_based_router::normalized_rel(rel) == rel,
        file_based_router::claimed_segments(c, rel) is None,
    ensures
        file_based_router::route_spec(seq![c], rel) is None,
{
    let only = seq![c];
    assert(only.drop_last() =~= Seq::<ConventionModel>::empty());
    assert(only[0] == c);
    reveal_with_fuel(file_based_router::claimant, 2);
}

/// A path, or a slash where it is empty.
pub open spec fn or_slash(path: Seq<char>) -> Seq<char> {
    if path.len() == 0 {
        "/"@
    } else {
        path
    }
}

proof fn lemma_no_prefix(c: ConventionModel, segments: Seq<Seq<char>>)
    requires
        c.path_prefix == ""@,
    ensures
        file_based_router::full_path(c, segments) == or_slash(
            file_based_router::route_path(c, segments),
        ),
{
    reveal_strlit("");
    let none = Seq::<char>::empty();
    assert(c.path_prefix =~= none + none);
    law_prefix_stands_before(c, none, none, segments);
    let path = file_based_router::route_path(c, segments);
    assert(none + path =~= path);
}

proof fn lemma_next_app_roots()
    ensures
        is_plain_root("app"@),
        is_plain_root("src/app"@),
        "app"@[0] == 'a',
        "src/app"@[0] == 's',
        "src/app"@.len() == 7,
        "src/app"@[4] == 'a',
        !"app"@.contains('\\'),
        !"src/app"@.contains('\\'),
{
    reveal_strlit("app");
    reveal_strlit("src/app");
}

proof fn lemma_route_files(file: Seq<char>)
    requires
        file == "route.ts"@ || file == "route.js"@ || file == "route.tsx"@ || file == "route.mts"@,
    ensures
        is_part(file),
        seq!["route.ts"@, "route.js"@, "route.tsx"@, "route.mts"@].contains(file),
{
    reveal_strlit("route.ts");
    reveal_strlit("route.js");
    reveal_strlit("route.tsx");
    reveal_strlit("route.mts");
    let files = seq!["route.ts"@, "route.js"@, "route.tsx"@, "route.mts"@];
    assert(files[0] == "route.ts"@ && files[1] == "route.js"@ && files[2] == "route.tsx"@
        && files[3] == "route.mts"@);
}

/// A `route` file under `app` or `src/app` is a route with the directories below
/// as its segments, and the method is the name of the export.
pub proof fn law_next_app_route(astro: bool, root: Seq<char>, dirs: Seq<Seq<char>>, file: Seq<char>)
    requires
        root == "app"@ || root == "src/app"@,
        are_parts(dirs),
        file == "route.ts"@ || file == "route.js"@ || file == "route.tsx"@ || file == "route.mts"@,
    ensures
        file_based_router::route_spec(
            file_based_router::conventions_model(true, astro),
            root + "/"@ + path_of(dirs, file),
        ) == Some(
            (
                or_slash(
                    file_based_router::route_path(file_based_router::nextjs_app_model(), dirs),
                ),
                MethodSource::ExportName,
                "nextjs-app"@,
            ),
        ),
{
    let c = file_based_router::nextjs_app_model();
    let rest = path_of(dirs, file);
    let rel = root + "/"@ + rest;
    lemma_route_files(file);
    lemma_parts_of_path(dirs, file);
    lemma_next_app_roots();
    lemma_under(root, rest);
    lemma_one_of_two("app"@, "src/app"@, root, rest);
    law_directories_are_the_segments(
        seq!["route.ts"@, "route.js"@, "route.tsx"@, "route.mts"@],
        dirs,
        file,
    );
    lemma_only_convention(c, rel, dirs);
    let all = file_based_router::conventions_model(true, astro);
    assert(all =~= seq![c] + all.skip(1));
    file_based_router::law_first_convention_decides(c, all.skip(1), rel);
    lemma_no_prefix(c, dirs);
}

proof fn lemma_next_pages_roots()
    ensures
        is_plain_root("pages/api"@),
        is_plain_root("src/pages/api"@),
        "pages/api"@[0] == 'p',
        "src/pages/api"@[0] == 's',
        "src/pages/api"@.len() == 13,
        "src/pages/api"@[4] == 'p',
        !"pages/api"@.contains('\\'),
        !"src/pages/api"@.contains('\\'),
{
    reveal_strlit("pages/api");
    reveal_strlit("src/pages/api");
}

proof fn lemma_page_extensions(extension: Seq<char>)
    requires
        extension == "ts"@ || extension == "js"@ || extension == "tsx"@ || extension == "jsx"@,
    ensures
        !extension.contains('.'),
        seq!["ts"@, "js"@, "tsx"@, "jsx"@].contains(extension),
{
    reveal_strlit("ts");
    reveal_strlit("js");
    reveal_strlit("tsx");
    reveal_strlit("jsx");
    let all = seq!["ts"@, "js"@, "tsx"@, "jsx"@];
    assert(all[0] == "ts"@ && all[1] == "js"@ && all[2] == "tsx"@ && all[3] == "jsx"@);
}

proof fn lemma_api_prefix(c: ConventionModel, segments: Seq<Seq<char>>)
    requires
        c.path_prefix == "/api"@,
    ensures
        file_based_router::full_path(c, segments) == "/api"@ + file_based_router::route_path(
            c,
            segments,
        ),
{
    reveal_strlit("/api");
    let none = Seq::<char>::empty();
    assert(c.path_prefix =~= "/api"@ + none);
    law_prefix_stands_before(c, "/api"@, none, segments);
}

/// A file under `pages/api` or `src/pages/api` is a route below `/api`, with the
/// directories and its own name as segments; `index` stands for its directory.
/// Its default export serves every method.
pub proof fn law_next_pages_route(
    astro: bool,
    root: Seq<char>,
    dirs: Seq<Seq<char>>,
    stem: Seq<char>,
    extension: Seq<char>,
)
    requires
        root == "pages/api"@ || root == "src/pages/api"@,
        are_parts(dirs),
        is_part(stem + "."@ + extension),
        stem.len() == 0 || stem[0] != '_',
        extension == "ts"@ || extension == "js"@ || extension == "tsx"@ || extension == "jsx"@,
    ensures
        file_based_router::route_spec(
            file_based_router::conventions_model(true, astro),
            root + "/"@ + path_of(dirs, stem + "."@ + extension),
        ) == Some(
            (
                "/api"@ + file_based_router::route_path(
                    file_based_router::nextjs_pages_model(),
                    if stem == "index"@ {
                        dirs
                    } else {
                        dirs.push(stem)
                    },
                ),
                MethodSource::DefaultExport,
                "nextjs-pages"@,
            ),
        ),
{
    let app = file_based_router::nextjs_app_model();
    let c = file_based_router::nextjs_pages_model();
    let file = stem + "."@ + extension;
    let rest = path_of(dirs, file);
    let rel = root + "/"@ + rest;
    let segments = if stem == "index"@ {
        dirs
    } else {
        dirs.push(stem)
    };
    lemma_page_extensions(extension);
    lemma_parts_of_path(dirs, file);
    lemma_next_app_roots();
    lemma_next_pages_roots();
    lemma_under(root, rest);
    lemma_one_of_two("pages/api"@, "src/pages/api"@, root, rest);
    law_file_name_is_a_segment(seq!["ts"@, "js"@, "tsx"@, "jsx"@], dirs, stem, extension);
    lemma_only_convention(c, rel, segments);
    assert(rel[0] == root[0]);
    assert(rel[4] == root[4]) by {
        reveal_strlit("pages/api");
    }
    lemma_not_under("app"@, rel, 0);
    if root == "src/pages/api"@ {
        lemma_not_under("src/app"@, rel, 4);
    } else {
        lemma_not_under("src/app"@, rel, 0);
    }
    lemma_neither("app"@, "src/app"@, rel);
    lemma_no_claim(app, rel);
    let all = file_based_router::conventions_model(true, astro);
    assert(all =~= seq![app] + all.skip(1));
    assert(all.skip(1) =~= seq![c] + all.skip(2));
    file_based_router::law_first_convention_decides(app, all.skip(1), rel);
    file_based_router::law_first_convention_decides(c, all.skip(2), rel);
    lemma_api_prefix(c, segments);
}

proof fn lemma_neither(a: Seq<char>, b: Seq<char>, rel: Seq<char>)
    requires
        file_based_router::rest_under(a, rel) is None,
        file_based_router::rest_under(b, rel) is None,
    ensures
        file_based_router::strip_root_spec(seq![a, b], rel) is None,
{
    let roots = seq![a, b];
    assert(roots.drop_last() =~= seq![a]);
    assert(seq![a].drop_last() =~= Seq::<Seq<char>>::empty());
    reveal_with_fuel(file_based_router::strip_root_spec, 3);
}

/// A file under `src/pages` of an Astro project is a route with the directories
/// and its own name as segments; `index` stands for its directory, and the method
/// is the name of the export.
pub proof fn law_astro_route(dirs: Seq<Seq<char>>, stem: Seq<char>, extension: Seq<char>)
    requires
        are_parts(dirs),
        is_part(stem + "."@ + extension),
        stem.len() == 0 || stem[0] != '_',
        extension == "ts"@ || extension == "js"@,
    ensures
        file_based_router::route_spec(
            file_based_router::conventions_model(false, true),
            "src/pages"@ + "/"@ + path_of(dirs, stem + "."@ + extension),
        ) == Some(
            (
                or_slash(
                    file_based_router::route_path(
                        file_based_router::astro_model(),
                        if stem == "index"@ {
                            dirs
                        } else {
                            dirs.push(stem)
                        },
                    ),
                ),
                MethodSource::ExportName,
                "astro"@,
            ),
        ),
{
    let c = file_based_router::astro_model();
    let file = stem + "."@ + extension;
    let rest = path_of(dirs, file);
    let root = "src/pages"@;
    let rel = root + "/"@ + rest;
    let segments = if stem == "index"@ {
        dirs
    } else {
        dirs.push(stem)
    };
    lemma_page_extensions(extension);
    assert(seq!["ts"@, "js"@].contains(extension)) by {
        assert(seq!["ts"@, "js"@][0] == "ts"@);
        assert(seq!["ts"@, "js"@][1] == "js"@);
    }
    lemma_parts_of_path(dirs, file);
    assert(is_plain_root(root) && root[0] == 's' && !root.contains('\\')) by {
        reveal_strlit("src/pages");
    }
    lemma_under(root, rest);
    law_under_a_root(root, rel, rest);
    assert(file_based_router::strip_root_spec(seq![root], rel) == Some(rest)) by {
        assert(seq![root].drop_last() =~= Seq::<Seq<char>>::empty());
        reveal_with_fuel(file_based_router::strip_root_spec, 2);
    }
    law_file_name_is_a_segment(seq!["ts"@, "js"@], dirs, stem, extension);
    lemma_only_convention(c, rel, segments);
    assert(file_based_router::conventions_model(false, true) =~= seq![c]);
    lemma_no_prefix(c, segments);
}

/// A name in parentheses is a group of Next.js and an ordinary segment of Astro.
pub proof fn law_parentheses(name: Seq<char>)
    ensures
        only_groups(file_based_router::nextjs_app_model(), "("@ + name + ")"@),
        only_groups(file_based_router::nextjs_pages_model(), "("@ + name + ")"@),
        !only_groups(file_based_router::astro_model(), "("@ + name + ")"@),
{
    reveal_strlit("(");
    reveal_strlit(")");
    reveal_strlit("");
}

/// The conventions whose parameters stand in brackets.
pub open spec fn has_brackets(c: ConventionModel) -> bool {
    c == file_based_router::nextjs_app_model() || c == file_based_router::nextjs_pages_model() || c
        == file_based_router::astro_model()
}

/// In the built-in conventions `[name]` is the parameter `:name`, `[...name]` and
/// `[[...name]]` are `**`, and a segment without brackets is itself.
pub proof fn law_brackets(c: ConventionModel, segments: Seq<Seq<char>>, name: Seq<char>)
    requires
        has_brackets(c),
        text_laws::is_tight(name),
        !name.contains('.'),
        name[0] != '[',
        name[0] != '(',
    ensures
        ({
            let before = file_based_router::route_path(c, segments);
            &&& file_based_router::route_path(c, segments.push("["@ + name + "]"@)) == before
                + "/"@ + (":"@ + name)
            &&& file_based_router::route_path(c, segments.push("["@ + ("..."@ + name) + "]"@))
                == before + "/"@ + "**"@
            &&& file_based_router::route_path(
                c,
                segments.push("[["@ + ("..."@ + name) + "]]"@),
            ) == before + "/"@ + "**"@
            &&& file_based_router::route_path(c, segments.push(name)) == before + "/"@ + name
        }),
{
    reveal_strlit("[");
    reveal_strlit("]");
    reveal_strlit("[[");
    reveal_strlit("]]");
    reveal_strlit("...");
    reveal_strlit("(");
    reveal_strlit("");
    let open = c.dynamic_open;
    let close = c.dynamic_close;
    let one = "["@ + name + "]"@;
    let many = "["@ + ("..."@ + name) + "]"@;
    let some = "[["@ + ("..."@ + name) + "]]"@;
    assert(open =~= seq!['[']);
    assert(close =~= seq![']']);
    assert(open + open =~= seq!['[', '[']);
    assert(close + close =~= seq![']', ']']);
    assert(c.group_open.len() > 0 ==> c.group_open =~= seq!['(']);
    let f1 = lemma_bracketed(c, segments, one, name);
    let f2 = lemma_bracketed(c, segments, many, "..."@ + name);
    assert(!only_groups(c, some)) by {
        if only_groups(c, some) {
            assert(some[0] == c.group_open[0]);
        }
    }
    let f3 = law_segment_stands_behind(c, segments, some);
    assert(begins_and_ends(some, open + open, close + close));
    assert(!only_groups(c, name)) by {
        if only_groups(c, name) {
            assert(name[0] == c.group_open[0]);
        }
    }
    let f4 = law_segment_stands_behind(c, segments, name);
    assert(!begins_and_ends(name, open, close)) by {
        if begins_and_ends(name, open, close) {
            assert(name[0] == open[0]);
        }
    }
    assert(!begins_and_ends(name, open + open, close + close)) by {
        if begins_and_ends(name, open + open, close + close) {
            assert(name[0] == (open + open)[0]);
        }
    }
    assert(!begins_and_ends(name, "..."@, Seq::empty())) by {
        if begins_and_ends(name, "..."@, Seq::empty()) {
            assert(name[0] == "..."@[0]);
            assert(name.contains(name[0]));
        }
    }
    assert(begins_and_ends("..."@ + name, "..."@, Seq::empty()));
    let none = Seq::<char>::empty();
    text_laws::law_trim(none, name, none);
    assert(none + name + none =~= name);
    lemma_nothing_to_remove(name);
}

proof fn lemma_nothing_to_remove(s: Seq<char>)
    requires
        !s.contains('.'),
    ensures
        s.filter(|c: char| c != '.') == s,
    decreases s.len(),
{
    reveal(Seq::filter);
    let keep = |c: char| c != '.';
    if s.len() > 0 {
        let front = s.drop_last();
        if front.contains('.') {
            let i = choose|i: int| 0 <= i < front.len() && front[i] == '.';
            assert(s[i] == '.');
        }
        lemma_nothing_to_remove(front);
        assert(s.contains(s[s.len() - 1]));
        assert(front.push(s.last()) =~= s);
    }
}

proof fn lemma_bracketed(
    c: ConventionModel,
    segments: Seq<Seq<char>>,
    raw: Seq<char>,
    inner: Seq<char>,
) -> (form: Seq<char>)
    requires
        has_brackets(c),
        raw == "["@ + inner + "]"@,
        inner.len() > 0,
        inner[0] != '[',
    ensures
        begins_and_ends(inner, "..."@, Seq::empty()) ==> form == "**"@,
        !begins_and_ends(inner, "..."@, Seq::empty()) ==> is_parameter(form, inner),
        file_based_router::route_path(c, segments.push(raw)) == file_based_router::route_path(
            c,
            segments,
        ) + "/"@ + form,
{
    reveal_strlit("[");
    reveal_strlit("]");
    reveal_strlit("(");
    reveal_strlit("");
    let open = c.dynamic_open;
    let close = c.dynamic_close;
    assert(!only_groups(c, raw)) by {
        if only_groups(c, raw) {
            assert(raw[0] == c.group_open[0]);
        }
    }
    let form = law_segment_stands_behind(c, segments, raw);
    assert(!begins_and_ends(raw, open + open, close + close)) by {
        if begins_and_ends(raw, open + open, close + close) {
            assert(raw[1] == (open + open)[1]);
        }
    }
    assert(begins_and_ends(raw, open, close));
    assert(raw == (open + inner) + close);
    form
}

/// Both conventions of Next.js apply where a framework mentions `next`, in any
/// case, that of Astro where one mentions `astro`, and without either none does.
pub proof fn law_conventions_of_frameworks(
    frameworks: Seq<Seq<char>>,
    i: int,
    before: Seq<char>,
    name: Seq<char>,
    after: Seq<char>,
)
    requires
        0 <= i < frameworks.len(),
        frameworks[i] == before + name + after,
        text::is_ascii_text(frameworks[i]),
    ensures
        text::same_ignoring_ascii_case(name, "next"@) ==> file_based_router::mentions(
            frameworks,
            "next"@,
        ),
        text::same_ignoring_ascii_case(name, "astro"@) ==> file_based_router::mentions(
            frameworks,
            "astro"@,
        ),
        !file_based_router::mentions(Seq::empty(), "next"@),
        !file_based_router::mentions(Seq::empty(), "astro"@),
{
    reveal_strlit("next");
    reveal_strlit("astro");
    if text::same_ignoring_ascii_case(name, "next"@) {
        lemma_mentioned(before, name, after, "next"@);
    }
    if text::same_ignoring_ascii_case(name, "astro"@) {
        lemma_mentioned(before, name, after, "astro"@);
    }
}

proof fn lemma_mentioned(before: Seq<char>, name: Seq<char>, after: Seq<char>, word: Seq<char>)
    requires
        text::is_ascii_text(before + name + after),
        text::same_ignoring_ascii_case(name, word),
        forall|i: int| 0 <= i < word.len() ==> 'a' <= #[trigger] word[i] <= 'z',
    ensures
        text::has_text(text::lowercase_text(before + name + after), word),
{
    let s = before + name + after;
    let lower = text::lowercase_text(s);
    let at = before.len() as int;
    text_laws::law_ascii_case(name, word);
    assert forall|i: int| 0 <= i < word.len() implies lower[at + i] == word[i] by {
        assert(s[at + i] == name[i]);
        assert(lower[at + i] == text::ascii_lower(name[i]));
        assert('a' <= word[i] <= 'z');
        assert(name[i] == word[i] || ('a' <= name[i] <= 'z' && name[i] as u32 == word[i] as u32
            + 32) || ('a' <= word[i] <= 'z' && word[i] as u32 == name[i] as u32 + 32));
    }
    assert(lower.subrange(at, at + word.len()) =~= word);
    assert(text::stands_at(lower, word, at));
}

/// Just the conventions of what is mentioned apply.
pub proof fn law_conventions(next: bool, astro: bool, c: ConventionModel)
    ensures
        file_based_router::conventions_model(next, astro).contains(c) <==> (next && (c
            == file_based_router::nextjs_app_model() || c == file_based_router::nextjs_pages_model()))
            || (astro && c == file_based_router::astro_model()),
{
    let all = file_based_router::conventions_model(next, astro);
    if next {
        assert(all[0] == file_based_router::nextjs_app_model());
        assert(all[1] == file_based_router::nextjs_pages_model());
        if astro {
            assert(all[2] == file_based_router::astro_model());
        }
    } else if astro {
        assert(all[0] == file_based_router::astro_model());
    }
}

} // verus!
