//! Routes derived from the file system layout.
//!
//! Some frameworks declare API routes by file location. A
//! [`RoutingConvention`] describes such a scheme as data; [`derive_route`]
//! applies it.

use vstd::prelude::*;

use crate::text;

verus! {

/// How the HTTP method of a file-based endpoint is determined.
#[derive(Clone, Copy, PartialEq, Eq, Structural, Debug)]
pub enum MethodSource {
    /// By the name of an exported handler function.
    ExportName,
    /// By a default export that serves every method.
    DefaultExport,
}

/// Where the segments of a route come from.
#[derive(Clone, PartialEq, Eq, Debug)]
pub enum SegmentSource {
    /// From the enclosing directories of a file with a fixed name.
    DirectoryChain { terminal_files: Vec<String> },
    /// From the directories and the file's own name without its extension;
    /// `index` stands for its directory.
    FileName { extensions: Vec<String> },
}

/// A file-based routing scheme.
#[derive(Clone, PartialEq, Eq, Debug)]
pub struct RoutingConvention {
    pub name: String,
    /// The directories under which route files live. The longest that matches
    /// wins.
    pub root_globs: Vec<String>,
    pub segment_source: SegmentSource,
    /// What stands before every derived path.
    pub path_prefix: String,
    pub dynamic_open: String,
    pub dynamic_close: String,
    pub catch_all_marker: String,
    pub group_open: String,
    pub group_close: String,
    pub method_source: MethodSource,
}

/// A route derived from a file's location.
#[derive(Clone, PartialEq, Eq, Debug)]
pub struct DerivedRoute {
    /// `:param` for dynamic segments, `**` for catch-alls.
    pub path: String,
    pub method_source: MethodSource,
    pub convention: String,
}

/// The model of a [`SegmentSource`].
pub enum SourceModel {
    DirectoryChain { terminal_files: Seq<Seq<char>> },
    FileName { extensions: Seq<Seq<char>> },
}

/// The model of a [`RoutingConvention`].
pub struct ConventionModel {
    pub name: Seq<char>,
    pub root_globs: Seq<Seq<char>>,
    pub segment_source: SourceModel,
    pub path_prefix: Seq<char>,
    pub dynamic_open: Seq<char>,
    pub dynamic_close: Seq<char>,
    pub catch_all_marker: Seq<char>,
    pub group_open: Seq<char>,
    pub group_close: Seq<char>,
    pub method_source: MethodSource,
}

impl DeepView for SegmentSource {
    type V = SourceModel;

    open spec fn deep_view(&self) -> SourceModel {
        match *self {
            SegmentSource::DirectoryChain { terminal_files } => SourceModel::DirectoryChain {
                terminal_files: terminal_files.deep_view(),
            },
            SegmentSource::FileName { extensions } => SourceModel::FileName {
                extensions: extensions.deep_view(),
            },
        }
    }
}

impl DeepView for RoutingConvention {
    type V = ConventionModel;

    open spec fn deep_view(&self) -> ConventionModel {
        ConventionModel {
            name: self.name@,
            root_globs: self.root_globs.deep_view(),
            segment_source: self.segment_source.deep_view(),
            path_prefix: self.path_prefix@,
            dynamic_open: self.dynamic_open@,
            dynamic_close: self.dynamic_close@,
            catch_all_marker: self.catch_all_marker@,
            group_open: self.group_open@,
            group_close: self.group_close@,
            method_source: self.method_source,
        }
    }
}

// ---------------------------------------------------------------------------
// The built-in conventions
// ---------------------------------------------------------------------------

/// The app router of Next.js: `route` files under `app`, a method for each
/// export.
pub open spec fn nextjs_app_model() -> ConventionModel {
    ConventionModel {
        name: "nextjs-app"@,
        root_globs: seq!["app"@, "src/app"@],
        segment_source: SourceModel::DirectoryChain {
            terminal_files: seq!["route.ts"@, "route.js"@, "route.tsx"@, "route.mts"@],
        },
        path_prefix: ""@,
        dynamic_open: "["@,
        dynamic_close: "]"@,
        catch_all_marker: "..."@,
        group_open: "("@,
        group_close: ")"@,
        method_source: MethodSource::ExportName,
    }
}

/// The pages router of Next.js: files under `pages/api`, one default export.
pub open spec fn nextjs_pages_model() -> ConventionModel {
    ConventionModel {
        name: "nextjs-pages"@,
        root_globs: seq!["pages/api"@, "src/pages/api"@],
        segment_source: SourceModel::FileName { extensions: seq!["ts"@, "js"@, "tsx"@, "jsx"@] },
        path_prefix: "/api"@,
        dynamic_open: "["@,
        dynamic_close: "]"@,
        catch_all_marker: "..."@,
        group_open: "("@,
        group_close: ")"@,
        method_source: MethodSource::DefaultExport,
    }
}

/// The endpoints of Astro: files under `src/pages`, a method for each export,
/// no prefix and no groups.
pub open spec fn astro_model() -> ConventionModel {
    ConventionModel {
        name: "astro"@,
        root_globs: seq!["src/pages"@],
        segment_source: SourceModel::FileName { extensions: seq!["ts"@, "js"@] },
        path_prefix: ""@,
        dynamic_open: "["@,
        dynamic_close: "]"@,
        catch_all_marker: "..."@,
        group_open: ""@,
        group_close: ""@,
        method_source: MethodSource::ExportName,
    }
}

fn list1(a: &str) -> (r: Vec<String>)
    ensures
        r.deep_view() == seq![a@],
{
    let mut v: Vec<String> = Vec::new();
    text::push_deep(&mut v, text::owned(a));
    assert(v.deep_view() =~= seq![a@]);
    v
}

fn list2(a: &str, b: &str) -> (r: Vec<String>)
    ensures
        r.deep_view() == seq![a@, b@],
{
    let mut v = list1(a);
    text::push_deep(&mut v, text::owned(b));
    assert(v.deep_view() =~= seq![a@, b@]);
    v
}

fn list4(a: &str, b: &str, c: &str, d: &str) -> (r: Vec<String>)
    ensures
        r.deep_view() == seq![a@, b@, c@, d@],
{
    let mut v = list2(a, b);
    text::push_deep(&mut v, text::owned(c));
    text::push_deep(&mut v, text::owned(d));
    assert(v.deep_view() =~= seq![a@, b@, c@, d@]);
    v
}

impl RoutingConvention {
    /// The app router of Next.js.
    pub fn nextjs_app() -> (r: Self)
        ensures
            r.deep_view() == nextjs_app_model(),
    {
        RoutingConvention {
            name: text::owned("nextjs-app"),
            root_globs: list2("app", "src/app"),
            segment_source: SegmentSource::DirectoryChain {
                terminal_files: list4("route.ts", "route.js", "route.tsx", "route.mts"),
            },
            path_prefix: text::owned(""),
            dynamic_open: text::owned("["),
            dynamic_close: text::owned("]"),
            catch_all_marker: text::owned("..."),
            group_open: text::owned("("),
            group_close: text::owned(")"),
            method_source: MethodSource::ExportName,
        }
    }

    /// The pages router of Next.js.
    pub fn nextjs_pages() -> (r: Self)
        ensures
            r.deep_view() == nextjs_pages_model(),
    {
        RoutingConvention {
            name: text::owned("nextjs-pages"),
            root_globs: list2("pages/api", "src/pages/api"),
            segment_source: SegmentSource::FileName { extensions: list4("ts", "js", "tsx", "jsx") },
            path_prefix: text::owned("/api"),
            dynamic_open: text::owned("["),
            dynamic_close: text::owned("]"),
            catch_all_marker: text::owned("..."),
            group_open: text::owned("("),
            group_close: text::owned(")"),
            method_source: MethodSource::DefaultExport,
        }
    }

    /// The endpoints of Astro.
    pub fn astro() -> (r: Self)
        ensures
            r.deep_view() == astro_model(),
    {
        RoutingConvention {
            name: text::owned("astro"),
            root_globs: list1("src/pages"),
            segment_source: SegmentSource::FileName { extensions: list2("ts", "js") },
            path_prefix: text::owned(""),
            dynamic_open: text::owned("["),
            dynamic_close: text::owned("]"),
            catch_all_marker: text::owned("..."),
            group_open: text::owned(""),
            group_close: text::owned(""),
            method_source: MethodSource::ExportName,
        }
    }
}

/// Whether one of the frameworks, in lower case, mentions the word.
pub open spec fn mentions(frameworks: Seq<Seq<char>>, word: Seq<char>) -> bool {
    exists|i: int|
        0 <= i < frameworks.len() && text::has_text(
            text::lowercase_text(#[trigger] frameworks[i]),
            word,
        )
}

/// The conventions for what is mentioned.
pub open spec fn conventions_model(next: bool, astro: bool) -> Seq<ConventionModel> {
    (if next {
        seq![nextjs_app_model(), nextjs_pages_model()]
    } else {
        Seq::empty()
    }) + (if astro {
        seq![astro_model()]
    } else {
        Seq::empty()
    })
}

fn is_mentioned(frameworks: &Vec<String>, word: &str) -> (r: bool)
    ensures
        r == mentions(frameworks.deep_view(), word@),
{
    let ghost f = frameworks.deep_view();
    let mut i: usize = 0;
    while i < frameworks.len()
        invariant
            i <= frameworks@.len(),
            f == frameworks.deep_view(),
            forall|k: int|
                0 <= k < i ==> !text::has_text(text::lowercase_text(#[trigger] f[k]), word@),
        decreases frameworks@.len() - i,
    {
        assert(f[i as int] == frameworks@[i as int]@);
        let lowered = text::to_lowercase(&frameworks[i]);
        if text::contains_text(&lowered, word) {
            assert(mentions(f, word@));
            return true;
        }
        i += 1;
    }
    false
}

/// The conventions for what is mentioned: both of Next.js, then that of Astro.
pub fn conventions_for(next: bool, astro: bool) -> (r: Vec<RoutingConvention>)
    ensures
        r.deep_view() == conventions_model(next, astro),
{
    let mut out: Vec<RoutingConvention> = Vec::new();
    if next {
        text::push_deep(&mut out, RoutingConvention::nextjs_app());
        text::push_deep(&mut out, RoutingConvention::nextjs_pages());
    }
    if astro {
        text::push_deep(&mut out, RoutingConvention::astro());
    }
    assert(out.deep_view() =~= conventions_model(next, astro));
    out
}

/// The built-in conventions for the detected frameworks.
pub fn builtin_conventions(frameworks: &Vec<String>) -> (r: Vec<RoutingConvention>)
    ensures
        r.deep_view() == conventions_model(
            mentions(frameworks.deep_view(), "next"@),
            mentions(frameworks.deep_view(), "astro"@),
        ),
{
    let next = is_mentioned(frameworks, "next");
    let astro = is_mentioned(frameworks, "astro");
    conventions_for(next, astro)
}

// ---------------------------------------------------------------------------
// Paths under a root
// ---------------------------------------------------------------------------

/// A path with forward slashes, without leading `./` and `/`.
pub open spec fn normalized_rel(rel: Seq<char>) -> Seq<char> {
    text::trim_start_char_spec(
        text::trim_start_text_spec(text::replace_char_spec(rel, '\\', "/"@), "./"@),
        '/',
    )
}

/// A path with forward slashes, without leading `./` and `/`.
pub fn normalize_rel(rel: &str) -> (r: String)
    ensures
        r@ == normalized_rel(rel@),
{
    let a = text::replace_char(rel, '\\', "/");
    let b = text::trim_start_text(&a, "./");
    text::trim_start_char(&b, '/')
}

/// What stands behind a root in a path, where the path is under it: the root
/// ends where a segment ends.
pub open spec fn rest_under(root: Seq<char>, rel: Seq<char>) -> Option<Seq<char>> {
    let r = text::trim_end_char_spec(text::trim_start_char_spec(root, '/'), '/');
    if r.len() == 0 {
        Some(rel)
    } else {
        match text::strip_prefix_spec(rel, r) {
            Some(rest) => if rest.len() == 0 {
                Some(rest)
            } else {
                text::strip_prefix_spec(rest, "/"@)
            },
            None => None,
        }
    }
}

/// What stands behind the longest root that the path is under.
pub open spec fn strip_root_spec(roots: Seq<Seq<char>>, rel: Seq<char>) -> Option<Seq<char>>
    decreases roots.len(),
{
    if roots.len() == 0 {
        None
    } else {
        match (strip_root_spec(roots.drop_last(), rel), rest_under(roots.last(), rel)) {
            (Some(a), Some(b)) => if b.len() < a.len() {
                Some(b)
            } else {
                Some(a)
            },
            (None, b) => b,
            (a, None) => a,
        }
    }
}

/// The longest root wins: what is left is no longer than what any other root
/// would leave, and is left by one of them.
pub proof fn law_longest_root_wins(roots: Seq<Seq<char>>, rel: Seq<char>)
    ensures
        forall|i: int|
            0 <= i < roots.len() ==> (rest_under(#[trigger] roots[i], rel) matches Some(rest) ==> (
            strip_root_spec(roots, rel) matches Some(best) && best.len() <= rest.len())),
        strip_root_spec(roots, rel) is Some ==> exists|i: int|
            0 <= i < roots.len() && rest_under(#[trigger] roots[i], rel) == strip_root_spec(
                roots,
                rel,
            ),
    decreases roots.len(),
{
    if roots.len() > 0 {
        let front = roots.drop_last();
        law_longest_root_wins(front, rel);
        assert forall|i: int| 0 <= i < roots.len() implies (rest_under(
            #[trigger] roots[i],
            rel,
        ) matches Some(rest) ==> (strip_root_spec(roots, rel) matches Some(best) && best.len()
            <= rest.len())) by {
            if i < front.len() {
                assert(front[i] == roots[i]);
            }
        }
        if strip_root_spec(roots, rel) is Some {
            if strip_root_spec(roots, rel) == rest_under(roots.last(), rel) {
                assert(roots[roots.len() - 1] == roots.last());
            } else {
                let i = choose|i: int|
                    0 <= i < front.len() && rest_under(#[trigger] front[i], rel)
                        == strip_root_spec(front, rel);
                assert(roots[i] == front[i]);
            }
        }
    }
}

fn find_rest(root: &str, rel: &str) -> (r: Option<String>)
    ensures
        r.deep_view() == rest_under(root@, rel@),
{
    let trimmed = text::trim_end_char(&text::trim_start_char(root, '/'), '/');
    if trimmed.as_str().is_empty() {
        return Some(text::owned(rel));
    }
    match text::strip_prefix(rel, &trimmed) {
        Some(rest) => if rest.as_str().is_empty() {
            Some(rest)
        } else {
            text::strip_prefix(&rest, "/")
        },
        None => None,
    }
}

/// The non-empty parts of a path.
pub open spec fn nonempty(parts: Seq<Seq<char>>) -> Seq<Seq<char>>
    decreases parts.len(),
{
    if parts.len() == 0 {
        Seq::empty()
    } else {
        let before = nonempty(parts.drop_last());
        if parts.last().len() == 0 {
            before
        } else {
            before.push(parts.last())
        }
    }
}

fn path_parts(path: &str) -> (r: Vec<String>)
    ensures
        r.deep_view() == nonempty(text::split_spec(path@, '/')),
{
    let parts = text::split(path, '/');
    let ghost p = parts.deep_view();
    let mut out: Vec<String> = Vec::new();
    assert(out.deep_view() =~= Seq::empty());
    let mut i: usize = 0;
    while i < parts.len()
        invariant
            i <= parts@.len(),
            p == parts.deep_view(),
            out.deep_view() == nonempty(p.take(i as int)),
        decreases parts@.len() - i,
    {
        assert(p.take(i + 1).drop_last() =~= p.take(i as int));
        assert(p[i as int] == parts@[i as int]@);
        if !parts[i].as_str().is_empty() {
            text::push_deep(&mut out, parts[i].clone());
        }
        i += 1;
    }
    assert(p.take(i as int) =~= p);
    out
}

/// The raw segments of a route file under its root; `None` where the file is
/// no route file.
pub open spec fn raw_segments_spec(source: SourceModel, after_root: Seq<char>) -> Option<
    Seq<Seq<char>>,
> {
    let parts = nonempty(text::split_spec(after_root, '/'));
    if parts.len() == 0 {
        None
    } else {
        let file = parts.last();
        let dirs = parts.drop_last();
        match source {
            SourceModel::DirectoryChain { terminal_files } => if text::among(
                file,
                terminal_files,
            ) {
                Some(dirs)
            } else {
                None
            },
            SourceModel::FileName { extensions } => if file.len() > 0 && file[0] == '_' {
                None
            } else {
                match text::rsplit_once_spec(file, '.') {
                    Some((stem, ext)) => if !text::among(ext, extensions) {
                        None
                    } else if stem == "index"@ {
                        Some(dirs)
                    } else {
                        Some(dirs.push(stem))
                    },
                    None => None,
                }
            },
        }
    }
}

// ---------------------------------------------------------------------------
// Segments
// ---------------------------------------------------------------------------

/// A parameter's name without white space round it and without dots.
pub open spec fn param_name(name: Seq<char>) -> Seq<char> {
    text::replace_char_spec(text::trim_spec(name), '.', ""@)
}

/// Whether a text stands between the two delimiters.
pub open spec fn delimited(raw: Seq<char>, open: Seq<char>, close: Seq<char>) -> bool {
    open.is_prefix_of(raw) && close.is_suffix_of(raw)
}

/// Whether a segment is a group, which is not part of the route.
pub open spec fn is_group(c: ConventionModel, raw: Seq<char>) -> bool {
    c.group_open.len() > 0 && delimited(raw, c.group_open, c.group_close)
}

/// Whether a segment is an optional catch-all: both delimiters doubled.
pub open spec fn is_optional_catch_all(c: ConventionModel, raw: Seq<char>) -> bool {
    delimited(raw, c.dynamic_open + c.dynamic_open, c.dynamic_close + c.dynamic_close)
}

/// A raw segment as a route segment; `None` for a group.
pub open spec fn route_segment(c: ConventionModel, raw: Seq<char>) -> Option<Seq<char>> {
    if is_group(c, raw) {
        None
    } else if is_optional_catch_all(c, raw) {
        Some("**"@)
    } else if delimited(raw, c.dynamic_open, c.dynamic_close) {
        let inner = raw.subrange(c.dynamic_open.len() as int, raw.len() - c.dynamic_close.len());
        if c.catch_all_marker.is_prefix_of(inner) {
            Some("**"@)
        } else {
            Some(":"@ + param_name(inner))
        }
    } else {
        Some(raw)
    }
}

/// Whether a segment that stands between the delimiters is long enough for
/// both, so that there is an inside to be read.
pub open spec fn has_inside(c: ConventionModel, raw: Seq<char>) -> bool {
    is_group(c, raw) || is_optional_catch_all(c, raw) || !delimited(
        raw,
        c.dynamic_open,
        c.dynamic_close,
    ) || c.dynamic_open.len() + c.dynamic_close.len() <= raw.len()
}

/// The segments put behind one another, each after a slash.
pub open spec fn route_path(c: ConventionModel, segments: Seq<Seq<char>>) -> Seq<char>
    decreases segments.len(),
{
    if segments.len() == 0 {
        ""@
    } else {
        let before = route_path(c, segments.drop_last());
        match route_segment(c, segments.last()) {
            Some(s) => before + "/"@ + s,
            None => before,
        }
    }
}

/// The path of a route: the prefix, the segments; a single slash where there is
/// nothing.
pub open spec fn full_path(c: ConventionModel, segments: Seq<Seq<char>>) -> Seq<char> {
    let full = text::trim_end_char_spec(c.path_prefix, '/') + route_path(c, segments);
    if full.len() == 0 {
        "/"@
    } else {
        full
    }
}

/// The segments that a convention claims of a path.
pub open spec fn claimed_segments(c: ConventionModel, rel: Seq<char>) -> Option<Seq<Seq<char>>> {
    match strip_root_spec(c.root_globs, rel) {
        Some(rest) => raw_segments_spec(c.segment_source, rest),
        None => None,
    }
}

/// The first convention that claims a path, by position.
pub open spec fn claimant(conventions: Seq<ConventionModel>, rel: Seq<char>) -> Option<int>
    decreases conventions.len(),
{
    if conventions.len() == 0 {
        None
    } else {
        match claimant(conventions.drop_last(), rel) {
            Some(i) => Some(i),
            None => if claimed_segments(conventions.last(), rel) is Some {
                Some(conventions.len() - 1)
            } else {
                None
            },
        }
    }
}

/// Whether every delimited segment of the route has an inside.
pub open spec fn derivable(conventions: Seq<ConventionModel>, rel_path: Seq<char>) -> bool {
    let rel = normalized_rel(rel_path);
    match claimant(conventions, rel) {
        Some(i) => {
            let segments = claimed_segments(conventions[i], rel)->0;
            forall|k: int|
                0 <= k < segments.len() ==> has_inside(conventions[i], #[trigger] segments[k])
        },
        None => true,
    }
}

/// The route of a file: its path, how its method is determined and by which
/// convention.
pub open spec fn route_spec(conventions: Seq<ConventionModel>, rel_path: Seq<char>) -> Option<
    (Seq<char>, MethodSource, Seq<char>),
> {
    let rel = normalized_rel(rel_path);
    match claimant(conventions, rel) {
        Some(i) => {
            let c = conventions[i];
            Some((full_path(c, claimed_segments(c, rel)->0), c.method_source, c.name))
        },
        None => None,
    }
}

impl RoutingConvention {
    /// What stands behind the longest root that the path is under.
    pub fn strip_root(&self, rel: &str) -> (r: Option<String>)
        ensures
            r.deep_view() == strip_root_spec(self.root_globs.deep_view(), rel@),
    {
        let ghost roots = self.root_globs.deep_view();
        let mut best: Option<String> = None;
        let mut i: usize = 0;
        while i < self.root_globs.len()
            invariant
                i <= self.root_globs@.len(),
                roots == self.root_globs.deep_view(),
                best.deep_view() == strip_root_spec(roots.take(i as int), rel@),
            decreases self.root_globs@.len() - i,
        {
            assert(roots.take(i + 1).drop_last() =~= roots.take(i as int));
            assert(roots[i as int] == self.root_globs@[i as int]@);
            if let Some(rest) = find_rest(&self.root_globs[i], rel) {
                let shorter = match &best {
                    Some(b) => rest.as_str().unicode_len() < b.as_str().unicode_len(),
                    None => true,
                };
                if shorter {
                    best = Some(rest);
                }
            }
            i += 1;
        }
        assert(roots.take(i as int) =~= roots);
        best
    }

    /// A raw segment as a route segment; `None` for a group.
    pub fn transform_segment(&self, raw: &str) -> (r: Option<String>)
        requires
            has_inside(self.deep_view(), raw@),
        ensures
            r.deep_view() == route_segment(self.deep_view(), raw@),
    {
        if !self.group_open.as_str().is_empty() && text::starts_with(raw, &self.group_open)
            && text::ends_with(raw, &self.group_close) {
            return None;
        }
        let double_open = text::cat2(&self.dynamic_open, &self.dynamic_open);
        let double_close = text::cat2(&self.dynamic_close, &self.dynamic_close);
        if text::starts_with(raw, &double_open) && text::ends_with(raw, &double_close) {
            return Some(text::owned("**"));
        }
        if text::starts_with(raw, &self.dynamic_open) && text::ends_with(raw, &self.dynamic_close) {
            let v = text::chars_of(raw);
            let open: usize = self.dynamic_open.as_str().unicode_len();
            let close: usize = self.dynamic_close.as_str().unicode_len();
            let inner = text::text_range(&v, open, v.len() - close);
            if text::starts_with(&inner, &self.catch_all_marker) {
                return Some(text::owned("**"));
            }
            return Some(text::cat2(":", &sanitize_param(&inner)));
        }
        Some(text::owned(raw))
    }

    /// The raw segments of a route file under its root; `None` where the file
    /// is no route file of this convention.
    pub fn raw_segments(&self, after_root: &str) -> (r: Option<Vec<String>>)
        ensures
            r.deep_view() == raw_segments_spec(self.segment_source.deep_view(), after_root@),
    {
        let mut parts = path_parts(after_root);
        let ghost p = parts.deep_view();
        assert(p.len() == parts@.len());
        if parts.len() == 0 {
            return None;
        }
        let ghost all = parts@;
        let file = parts.pop().unwrap();
        assert(all.last() == file);
        assert(parts@ =~= all.drop_last());
        assert(parts.deep_view() =~= p.drop_last());
        assert(file@ == p.last());
        match &self.segment_source {
            SegmentSource::DirectoryChain { terminal_files } => {
                if text::is_among(&file, terminal_files) {
                    Some(parts)
                } else {
                    None
                }
            },
            SegmentSource::FileName { extensions } => {
                if text::starts_with_char(&file, '_') {
                    return None;
                }
                match text::rsplit_once(&file, '.') {
                    Some((stem, ext)) => {
                        if !text::is_among(&ext, extensions) {
                            return None;
                        }
                        if !text::same_text(&stem, "index") {
                            text::push_deep(&mut parts, stem);
                        }
                        Some(parts)
                    },
                    None => None,
                }
            },
        }
    }
}

/// A parameter's name without white space round it and without dots.
pub fn sanitize_param(name: &str) -> (r: String)
    ensures
        r@ == param_name(name@),
{
    let a = text::trim(name);
    text::replace_char(&a, '.', "")
}

fn claim(c: &RoutingConvention, rel: &str) -> (r: Option<Vec<String>>)
    ensures
        r.deep_view() == claimed_segments(c.deep_view(), rel@),
{
    match c.strip_root(rel) {
        Some(rest) => c.raw_segments(&rest),
        None => None,
    }
}

/// The first claiming convention, by position, and the segments that it claims.
fn find_claimant(conventions: &Vec<RoutingConvention>, rel: &str) -> (r: Option<
    (usize, Vec<String>),
>)
    ensures
        match r {
            Some((i, segments)) => i < conventions@.len() && claimant(
                conventions.deep_view(),
                rel@,
            ) == Some(i as int) && claimed_segments(conventions.deep_view()[i as int], rel@)
                == Some(segments.deep_view()),
            None => claimant(conventions.deep_view(), rel@) is None,
        },
{
    let ghost cs = conventions.deep_view();
    let mut i: usize = 0;
    while i < conventions.len()
        invariant
            i <= conventions@.len(),
            cs == conventions.deep_view(),
            claimant(cs.take(i as int), rel@) is None,
        decreases conventions@.len() - i,
    {
        assert(cs.take(i + 1).drop_last() =~= cs.take(i as int));
        assert(cs[i as int] == conventions@[i as int].deep_view());
        match claim(&conventions[i], rel) {
            Some(segments) => {
                proof {
                    lemma_claimant_stays(cs, rel@, i + 1);
                }
                return Some((i, segments));
            },
            None => {},
        }
        i += 1;
    }
    assert(cs.take(i as int) =~= cs);
    None
}

proof fn lemma_claimant_stays(conventions: Seq<ConventionModel>, rel: Seq<char>, n: int)
    requires
        0 <= n <= conventions.len(),
        claimant(conventions.take(n), rel) is Some,
    ensures
        claimant(conventions, rel) == claimant(conventions.take(n), rel),
    decreases conventions.len() - n,
{
    if n < conventions.len() {
        assert(conventions.take(n + 1).drop_last() =~= conventions.take(n));
        lemma_claimant_stays(conventions, rel, n + 1);
    } else {
        assert(conventions.take(n) =~= conventions);
    }
}

fn segment_has_inside(c: &RoutingConvention, raw: &str) -> (r: bool)
    ensures
        r == has_inside(c.deep_view(), raw@),
{
    if !c.group_open.as_str().is_empty() && text::starts_with(raw, &c.group_open)
        && text::ends_with(raw, &c.group_close) {
        return true;
    }
    let double_open = text::cat2(&c.dynamic_open, &c.dynamic_open);
    let double_close = text::cat2(&c.dynamic_close, &c.dynamic_close);
    if text::starts_with(raw, &double_open) && text::ends_with(raw, &double_close) {
        return true;
    }
    if !(text::starts_with(raw, &c.dynamic_open) && text::ends_with(raw, &c.dynamic_close)) {
        return true;
    }
    let open: usize = c.dynamic_open.as_str().unicode_len();
    let close: usize = c.dynamic_close.as_str().unicode_len();
    let n: usize = raw.unicode_len();
    open <= n && close <= n - open
}

/// Whether every delimited segment of the file's route has an inside, so that
/// [`derive_route`] can be called.
pub fn is_derivable(rel_path: &str, conventions: &Vec<RoutingConvention>) -> (r: bool)
    ensures
        r == derivable(conventions.deep_view(), rel_path@),
{
    let rel = normalize_rel(rel_path);
    match find_claimant(conventions, &rel) {
        Some((i, segments)) => {
            let c = &conventions[i];
            let ghost segs = segments.deep_view();
            assert(conventions.deep_view()[i as int] == c.deep_view());
            let mut k: usize = 0;
            while k < segments.len()
                invariant
                    k <= segments@.len(),
                    segs == segments.deep_view(),
                    i < conventions@.len(),
                    *c == conventions@[i as int],
                    rel@ == normalized_rel(rel_path@),
                    conventions.deep_view()[i as int] == c.deep_view(),
                    claimant(conventions.deep_view(), rel@) == Some(i as int),
                    claimed_segments(c.deep_view(), rel@) == Some(segs),
                    forall|j: int| 0 <= j < k ==> has_inside(c.deep_view(), #[trigger] segs[j]),
                decreases segments@.len() - k,
            {
                assert(segs[k as int] == segments@[k as int]@);
                if !segment_has_inside(c, &segments[k]) {
                    proof {
                        let cs = conventions.deep_view();
                        let target = claimed_segments(cs[i as int], rel@)->0;
                        assert(target[k as int] == segs[k as int]);
                        assert(!has_inside(cs[i as int], target[k as int]));
                    }
                    return false;
                }
                k += 1;
            }
            true
        },
        None => true,
    }
}

/// Derives the route of a file, by its path relative to the repository, with
/// the first convention that claims it. `None` where none does.
pub fn derive_route(rel_path: &str, conventions: &Vec<RoutingConvention>) -> (r: Option<
    DerivedRoute,
>)
    requires
        derivable(conventions.deep_view(), rel_path@),
    ensures
        match r {
            Some(route) => route_spec(conventions.deep_view(), rel_path@) == Some(
                (route.path@, route.method_source, route.convention@),
            ),
            None => route_spec(conventions.deep_view(), rel_path@) is None,
        },
{
    let rel = normalize_rel(rel_path);
    match find_claimant(conventions, &rel) {
        Some((i, segments)) => {
            let c = &conventions[i];
            let ghost segs = segments.deep_view();
            assert(conventions.deep_view()[i as int] == c.deep_view());
            let mut path = text::owned("");
            let mut k: usize = 0;
            while k < segments.len()
                invariant
                    k <= segments@.len(),
                    segs == segments.deep_view(),
                    forall|j: int|
                        0 <= j < segs.len() ==> has_inside(c.deep_view(), #[trigger] segs[j]),
                    path@ == route_path(c.deep_view(), segs.take(k as int)),
                decreases segments@.len() - k,
            {
                assert(segs.take(k + 1).drop_last() =~= segs.take(k as int));
                assert(segs[k as int] == segments@[k as int]@);
                if let Some(s) = c.transform_segment(&segments[k]) {
                    path.append("/");
                    path.append(&s);
                }
                k += 1;
            }
            assert(segs.take(k as int) =~= segs);
            let prefix = text::trim_end_char(&c.path_prefix, '/');
            let mut full = text::cat2(&prefix, &path);
            if full.as_str().is_empty() {
                full = text::owned("/");
            }
            Some(
                DerivedRoute {
                    path: full,
                    method_source: c.method_source,
                    convention: c.name.clone(),
                },
            )
        },
        None => None,
    }
}

/// With one of the built-in delimiters every delimited segment has an inside:
/// routes can be derived for every path.
pub proof fn law_builtin_always_derivable(next: bool, astro: bool, rel_path: Seq<char>)
    ensures
        derivable(conventions_model(next, astro), rel_path),
{
    let cs = conventions_model(next, astro);
    let rel = normalized_rel(rel_path);
    lemma_claimant_in_range(cs, rel);
    if let Some(i) = claimant(cs, rel) {
        let segments = claimed_segments(cs[i], rel)->0;
        assert(cs[i] == nextjs_app_model() || cs[i] == nextjs_pages_model() || cs[i]
            == astro_model());
        assert forall|k: int| 0 <= k < segments.len() implies has_inside(
            cs[i],
            #[trigger] segments[k],
        ) by {
            lemma_brackets_have_inside(cs[i], segments[k]);
        }
    }
}

proof fn lemma_claimant_in_range(conventions: Seq<ConventionModel>, rel: Seq<char>)
    ensures
        claimant(conventions, rel) matches Some(i) ==> 0 <= i < conventions.len(),
    decreases conventions.len(),
{
    if conventions.len() > 0 {
        lemma_claimant_in_range(conventions.drop_last(), rel);
    }
}

proof fn lemma_brackets_have_inside(c: ConventionModel, raw: Seq<char>)
    requires
        c.dynamic_open == "["@,
        c.dynamic_close == "]"@,
    ensures
        has_inside(c, raw),
{
    reveal_strlit("[");
    reveal_strlit("]");
    if delimited(raw, "["@, "]"@) {
        assert("["@[0] == raw.subrange(0, 1)[0]);
        assert("]"@[0] == raw.subrange(raw.len() - 1, raw.len() as int)[0]);
        assert(raw[0] == '[');
        assert(raw[raw.len() - 1] == ']');
    }
}

proof fn lemma_route_path_slash(c: ConventionModel, segments: Seq<Seq<char>>)
    ensures
        route_path(c, segments).len() > 0 ==> route_path(c, segments)[0] == '/',
    decreases segments.len(),
{
    reveal_strlit("/");
    reveal_strlit("");
    if segments.len() > 0 {
        lemma_route_path_slash(c, segments.drop_last());
        let before = route_path(c, segments.drop_last());
        if before.len() == 0 {
            assert(before =~= Seq::empty());
        }
    }
}

proof fn lemma_trim_end_char_prefix(s: Seq<char>, c: char)
    ensures
        text::trim_end_char_spec(s, c).is_prefix_of(s),
    decreases s.len(),
{
    if s.len() > 0 && s.last() == c {
        lemma_trim_end_char_prefix(s.drop_last(), c);
        let t = text::trim_end_char_spec(s, c);
        assert(t =~= s.subrange(0, t.len() as int)) by {
            assert(t =~= s.drop_last().subrange(0, t.len() as int));
        }
    } else {
        assert(s =~= s.subrange(0, s.len() as int));
    }
}

proof fn lemma_claimant_of_rest(
    first: ConventionModel,
    rest: Seq<ConventionModel>,
    rel: Seq<char>,
)
    ensures
        claimant(seq![first] + rest, rel) == (if claimed_segments(first, rel) is Some {
            Some(0int)
        } else {
            match claimant(rest, rel) {
                Some(i) => Some(i + 1),
                None => None,
            }
        }),
    decreases rest.len(),
{
    let all = seq![first] + rest;
    if rest.len() == 0 {
        assert(all.drop_last() =~= Seq::empty());
        assert(all.last() == first);
    } else {
        assert(all.drop_last() =~= seq![first] + rest.drop_last());
        assert(all.last() == rest.last());
        lemma_claimant_of_rest(first, rest.drop_last(), rel);
    }
}

/// The first convention that claims a file decides its route: where it does,
/// the others change nothing, and where it does not, the others decide. Without
/// a convention there is no route.
pub proof fn law_first_convention_decides(
    first: ConventionModel,
    rest: Seq<ConventionModel>,
    rel_path: Seq<char>,
)
    ensures
        route_spec(seq![first] + rest, rel_path) == (match route_spec(seq![first], rel_path) {
            Some(route) => Some(route),
            None => route_spec(rest, rel_path),
        }),
        derivable(seq![first] + rest, rel_path) == (if route_spec(seq![first], rel_path) is Some {
            derivable(seq![first], rel_path)
        } else {
            derivable(rest, rel_path)
        }),
        route_spec(Seq::empty(), rel_path) is None,
{
    let rel = normalized_rel(rel_path);
    let all = seq![first] + rest;
    lemma_claimant_of_rest(first, rest, rel);
    lemma_claimant_of_rest(first, Seq::empty(), rel);
    assert(seq![first] + Seq::<ConventionModel>::empty() =~= seq![first]);
    lemma_claimant_in_range(rest, rel);
    if let Some(i) = claimant(rest, rel) {
        assert(all[i + 1] == rest[i]);
    }
    assert(all[0] == first);
    assert(seq![first][0] == first);
}

/// Whether a character separates the segments of a path.
pub open spec fn is_separator(c: char) -> bool {
    c == '/' || c == '\\'
}

/// Whether two paths differ at most in which separator stands between their
/// segments.
pub open spec fn same_but_separators(a: Seq<char>, b: Seq<char>) -> bool {
    a.len() == b.len() && forall|i: int|
        0 <= i < a.len() ==> (#[trigger] a[i]) == b[i] || is_separator(a[i]) && is_separator(b[i])
}

proof fn lemma_separators_replaced(a: Seq<char>, b: Seq<char>)
    requires
        same_but_separators(a, b),
    ensures
        text::replace_char_spec(a, '\\', "/"@) == text::replace_char_spec(b, '\\', "/"@),
    decreases a.len(),
{
    reveal_strlit("/");
    assert("/"@ =~= seq!['/']);
    if a.len() > 0 {
        let p = a.drop_last();
        let q = b.drop_last();
        assert forall|i: int| 0 <= i < p.len() implies (#[trigger] p[i]) == q[i] || is_separator(
            p[i],
        ) && is_separator(q[i]) by {
            assert(a[i] == p[i]);
        }
        lemma_separators_replaced(p, q);
        assert(a[a.len() - 1] == b[b.len() - 1] || is_separator(a.last()) && is_separator(b.last()));
        let x = text::replace_char_spec(p, '\\', "/"@);
        assert(x + "/"@ =~= x.push('/'));
    } else {
        assert(a =~= b);
    }
}

/// Which separator stands between the segments of a file's path does not change
/// its route.
pub proof fn law_separators_do_not_matter(
    conventions: Seq<ConventionModel>,
    a: Seq<char>,
    b: Seq<char>,
)
    requires
        same_but_separators(a, b),
    ensures
        route_spec(conventions, a) == route_spec(conventions, b),
        derivable(conventions, a) == derivable(conventions, b),
{
    lemma_separators_replaced(a, b);
}

proof fn lemma_replace_behind(prefix: Seq<char>, s: Seq<char>)
    requires
        !prefix.contains('\\'),
    ensures
        text::replace_char_spec(prefix + s, '\\', "/"@) == prefix + text::replace_char_spec(
            s,
            '\\',
            "/"@,
        ),
    decreases prefix.len() + s.len(),
{
    let all = prefix + s;
    if s.len() > 0 {
        assert(all.drop_last() =~= prefix + s.drop_last());
        lemma_replace_behind(prefix, s.drop_last());
        assert(text::replace_char_spec(all, '\\', "/"@) =~= prefix + text::replace_char_spec(
            s,
            '\\',
            "/"@,
        ));
    } else if prefix.len() > 0 {
        let front = prefix.drop_last();
        assert(prefix.contains(prefix[prefix.len() - 1]));
        assert forall|i: int| 0 <= i < front.len() implies front[i] != '\\' by {
            assert(prefix.contains(prefix[i]));
        }
        lemma_replace_behind(front, Seq::empty());
        assert(front + Seq::<char>::empty() =~= front);
        assert(all =~= prefix);
        assert(s =~= Seq::empty());
        assert(front + text::replace_char_spec(s, '\\', "/"@) =~= front);
        assert(text::replace_char_spec(all, '\\', "/"@) =~= prefix);
        assert(prefix + text::replace_char_spec(s, '\\', "/"@) =~= prefix);
    } else {
        assert(all =~= s);
        assert(prefix + text::replace_char_spec(s, '\\', "/"@) =~= text::replace_char_spec(
            s,
            '\\',
            "/"@,
        ));
    }
}

/// A `./` in front of a file's path does not change its route.
pub proof fn law_leading_dot_does_not_matter(
    conventions: Seq<ConventionModel>,
    rel_path: Seq<char>,
)
    ensures
        route_spec(conventions, "./"@ + rel_path) == route_spec(conventions, rel_path),
        derivable(conventions, "./"@ + rel_path) == derivable(conventions, rel_path),
{
    reveal_strlit("./");
    let dot = "./"@;
    assert(dot =~= seq!['.', '/']);
    lemma_replace_behind(dot, rel_path);
    let x = text::replace_char_spec(rel_path, '\\', "/"@);
    assert(dot.is_prefix_of(dot + x)) by {
        assert((dot + x).subrange(0, 2) =~= dot);
    }
    assert((dot + x).skip(2) =~= x);
}

/// A derived path begins with a slash, where the convention's prefix is empty
/// or does.
pub proof fn law_route_begins_with_slash(c: ConventionModel, segments: Seq<Seq<char>>)
    requires
        c.path_prefix.len() == 0 || c.path_prefix[0] == '/',
    ensures
        full_path(c, segments).len() > 0,
        full_path(c, segments)[0] == '/',
{
    reveal_strlit("/");
    lemma_route_path_slash(c, segments);
    let prefix = text::trim_end_char_spec(c.path_prefix, '/');
    lemma_trim_end_char_prefix(c.path_prefix, '/');
    let full = prefix + route_path(c, segments);
    if prefix.len() > 0 {
        assert(prefix[0] == c.path_prefix.subrange(0, prefix.len() as int)[0]);
        assert(full[0] == prefix[0]);
    } else if full.len() > 0 {
        assert(full[0] == route_path(c, segments)[0]);
    }
}

} // verus!
