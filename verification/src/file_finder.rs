//! Which of the files under a directory are analysed.

use vstd::prelude::*;

use crate::{paths, text};

verus! {

/// What a file is to the analysis.
#[derive(Clone, Copy, PartialEq, Eq, Structural, Debug)]
pub enum FileKind {
    /// The configuration, `carrick.json`.
    Config,
    /// A package manifest, `package.json`.
    Package,
    /// JavaScript or TypeScript that is not a test.
    Source,
    /// Anything else.
    Skipped,
}

/// Whether a directory of that name holds tests.
pub open spec fn is_test_dir_name(name: Seq<char>) -> bool {
    ||| text::same_ignoring_ascii_case(name, "__tests__"@)
    ||| text::same_ignoring_ascii_case(name, "__mocks__"@)
    ||| text::same_ignoring_ascii_case(name, "__fixtures__"@)
    ||| text::same_ignoring_ascii_case(name, "tests"@)
    ||| text::same_ignoring_ascii_case(name, "test"@)
    ||| text::same_ignoring_ascii_case(name, "fixtures"@)
}

/// Whether a name ends with the suffix, up to the case of ASCII letters.
pub open spec fn ends_ignoring_ascii_case(name: Seq<char>, suffix: Seq<char>) -> bool {
    suffix.len() <= name.len() && text::same_ignoring_ascii_case(
        name.skip(name.len() - suffix.len()),
        suffix,
    )
}

/// Whether a file of that name is a test.
pub open spec fn is_test_file_name(name: Seq<char>) -> bool {
    ||| ends_ignoring_ascii_case(name, ".test.ts"@)
    ||| ends_ignoring_ascii_case(name, ".test.tsx"@)
    ||| ends_ignoring_ascii_case(name, ".spec.ts"@)
    ||| ends_ignoring_ascii_case(name, ".spec.tsx"@)
    ||| ends_ignoring_ascii_case(name, ".test.js"@)
    ||| ends_ignoring_ascii_case(name, ".test.jsx"@)
    ||| ends_ignoring_ascii_case(name, ".spec.js"@)
    ||| ends_ignoring_ascii_case(name, ".spec.jsx"@)
}

/// The name of the file that a path leads to.
pub open spec fn file_name_of(path: Seq<char>) -> Option<Seq<char>> {
    let parts = paths::components(path);
    if parts.len() == 0 || parts.last() == "/"@ || parts.last() == "."@ || parts.last() == ".."@ {
        None
    } else {
        Some(parts.last())
    }
}

/// What stands behind the last dot of a file name that has one behind its
/// first character.
pub open spec fn extension_of(path: Seq<char>) -> Option<Seq<char>> {
    match file_name_of(path) {
        Some(name) => match text::rsplit_once_spec(name, '.') {
            Some((stem, ext)) => if stem.len() == 0 {
                None
            } else {
                Some(ext)
            },
            None => None,
        },
        None => None,
    }
}

/// Whether one of the components is the name of a test directory.
pub open spec fn any_test_dir(parts: Seq<Seq<char>>) -> bool {
    exists|i: int| 0 <= i < parts.len() && is_test_dir_name(#[trigger] parts[i])
}

/// Whether a path leads through a test directory below the root. The root
/// itself may lie in one.
pub open spec fn through_test_dir(path: Seq<char>, root: Seq<char>) -> bool {
    paths::is_under(path, root) && any_test_dir(
        paths::components(path).skip(paths::components(root).len() as int),
    )
}

/// Whether a path leads to a test.
pub open spec fn leads_to_test(path: Seq<char>, root: Seq<char>) -> bool {
    through_test_dir(path, root) || (file_name_of(path) matches Some(name) && is_test_file_name(
        name,
    ))
}

/// Whether a path holds one of the patterns.
pub open spec fn is_ignored(path: Seq<char>, patterns: Seq<Seq<char>>) -> bool {
    exists|i: int| 0 <= i < patterns.len() && text::has_text(path, #[trigger] patterns[i])
}

/// Whether an extension is one of JavaScript or TypeScript. `lower` is its
/// lower-case form.
pub open spec fn is_source_extension(lower: Seq<char>) -> bool {
    lower == "js"@ || lower == "ts"@ || lower == "jsx"@ || lower == "tsx"@
}

/// What a file is to the analysis, with the lower-case form of its extension.
pub open spec fn kind_of(
    path: Seq<char>,
    root: Seq<char>,
    patterns: Seq<Seq<char>>,
    lower_extension: Option<Seq<char>>,
) -> FileKind {
    if is_ignored(path, patterns) {
        FileKind::Skipped
    } else if file_name_of(path) == Some("carrick.json"@) {
        FileKind::Config
    } else if file_name_of(path) == Some("package.json"@) {
        FileKind::Package
    } else if lower_extension matches Some(e) && is_source_extension(e) && !leads_to_test(
        path,
        root,
    ) {
        FileKind::Source
    } else {
        FileKind::Skipped
    }
}

/// The lower-case form of a path's extension.
pub open spec fn lower_extension(path: Seq<char>) -> Option<Seq<char>> {
    match extension_of(path) {
        Some(e) => Some(text::lowercase_text(e)),
        None => None,
    }
}

/// What a file is to the analysis.
pub open spec fn file_kind(path: Seq<char>, root: Seq<char>, patterns: Seq<Seq<char>>) -> FileKind {
    kind_of(path, root, patterns, lower_extension(path))
}

fn test_dir_name(name: &str) -> (r: bool)
    ensures
        r == is_test_dir_name(name@),
{
    text::eq_ignore_ascii_case(name, "__tests__") || text::eq_ignore_ascii_case(name, "__mocks__")
        || text::eq_ignore_ascii_case(name, "__fixtures__") || text::eq_ignore_ascii_case(
        name,
        "tests",
    ) || text::eq_ignore_ascii_case(name, "test") || text::eq_ignore_ascii_case(name, "fixtures")
}

fn ends_with_any_case(name: &str, suffix: &str) -> (r: bool)
    ensures
        r == ends_ignoring_ascii_case(name@, suffix@),
{
    let v = text::chars_of(name);
    let w = text::chars_of(suffix);
    if w.len() > v.len() {
        return false;
    }
    let tail = text::text_range(&v, v.len() - w.len(), v.len());
    assert(tail@ =~= name@.skip(name@.len() - suffix@.len()));
    text::eq_ignore_ascii_case(&tail, suffix)
}

fn file_name(path: &str) -> (r: Option<String>)
    ensures
        r.deep_view() == file_name_of(path@),
{
    let parts = paths::path_components(path);
    let ghost p = parts.deep_view();
    let n = parts.len();
    if n == 0 {
        return None;
    }
    assert(p.last() == parts@[n - 1]@);
    if text::same_text(&parts[n - 1], "/") || text::same_text(&parts[n - 1], ".")
        || text::same_text(&parts[n - 1], "..") {
        return None;
    }
    Some(parts[n - 1].clone())
}

/// What stands behind the last dot of a file name.
pub fn extension(path: &str) -> (r: Option<String>)
    ensures
        r.deep_view() == extension_of(path@),
{
    match file_name(path) {
        Some(name) => match text::rsplit_once(&name, '.') {
            Some((stem, ext)) => {
                if stem.as_str().is_empty() {
                    None
                } else {
                    Some(ext)
                }
            },
            None => None,
        },
        None => None,
    }
}

/// Whether a path leads through a test directory below the root.
pub fn has_test_dir(path: &str, root: &str) -> (r: bool)
    ensures
        r == through_test_dir(path@, root@),
{
    if !paths::lies_under(path, root) {
        return false;
    }
    let p = paths::path_components(path);
    let q = paths::path_components(root);
    let ghost cp = p.deep_view();
    let ghost cq = q.deep_view();
    let mut i: usize = q.len();
    let ghost rest = cp.skip(cq.len() as int);
    while i < p.len()
        invariant
            q@.len() <= i <= p@.len(),
            cp == p.deep_view(),
            cq.len() == q@.len(),
            rest == cp.skip(cq.len() as int),
            rest == paths::components(path@).skip(paths::components(root@).len() as int),
            paths::is_under(path@, root@),
            forall|k: int| 0 <= k < i - q@.len() ==> !is_test_dir_name(#[trigger] rest[k]),
        decreases p@.len() - i,
    {
        assert(rest[i - q@.len()] == p@[i as int]@);
        if test_dir_name(&p[i]) {
            return true;
        }
        i += 1;
    }
    false
}

/// Whether a path leads to a file with the name of a test.
pub fn has_test_suffix(path: &str) -> (r: bool)
    ensures
        r == (file_name_of(path@) matches Some(name) && is_test_file_name(name)),
{
    match file_name(path) {
        Some(name) => ends_with_any_case(&name, ".test.ts") || ends_with_any_case(
            &name,
            ".test.tsx",
        ) || ends_with_any_case(&name, ".spec.ts") || ends_with_any_case(&name, ".spec.tsx")
            || ends_with_any_case(&name, ".test.js") || ends_with_any_case(&name, ".test.jsx")
            || ends_with_any_case(&name, ".spec.js") || ends_with_any_case(&name, ".spec.jsx"),
        None => false,
    }
}

/// Whether a path leads to a test.
pub fn is_test_path(path: &str, root: &str) -> (r: bool)
    ensures
        r == leads_to_test(path@, root@),
{
    has_test_dir(path, root) || has_test_suffix(path)
}

fn matches_pattern(path: &str, patterns: &Vec<String>) -> (r: bool)
    ensures
        r == is_ignored(path@, patterns.deep_view()),
{
    let ghost p = patterns.deep_view();
    let mut i: usize = 0;
    while i < patterns.len()
        invariant
            i <= patterns@.len(),
            p == patterns.deep_view(),
            forall|k: int| 0 <= k < i ==> !text::has_text(path@, #[trigger] p[k]),
        decreases patterns@.len() - i,
    {
        assert(p[i as int] == patterns@[i as int]@);
        if text::contains_text(path, &patterns[i]) {
            return true;
        }
        i += 1;
    }
    false
}

/// What a file is to the analysis, with the lower-case form of its extension.
pub fn classify_with_extension(
    path: &str,
    root: &str,
    ignore_patterns: &Vec<String>,
    lower_extension: &Option<String>,
) -> (r: FileKind)
    ensures
        r == kind_of(path@, root@, ignore_patterns.deep_view(), lower_extension.deep_view()),
{
    if matches_pattern(path, ignore_patterns) {
        return FileKind::Skipped;
    }
    if let Some(name) = file_name(path) {
        if text::same_text(&name, "carrick.json") {
            return FileKind::Config;
        }
        if text::same_text(&name, "package.json") {
            return FileKind::Package;
        }
    }
    let source = match lower_extension {
        Some(e) => text::same_text(e, "js") || text::same_text(e, "ts") || text::same_text(e, "jsx")
            || text::same_text(e, "tsx"),
        None => false,
    };
    if source && !is_test_path(path, root) {
        FileKind::Source
    } else {
        FileKind::Skipped
    }
}

/// What a file is to the analysis.
pub fn classify_file(path: &str, root: &str, ignore_patterns: &Vec<String>) -> (r: FileKind)
    ensures
        r == file_kind(path@, root@, ignore_patterns.deep_view()),
{
    let lower = match extension(path) {
        Some(e) => Some(text::to_lowercase(&e)),
        None => None,
    };
    classify_with_extension(path, root, ignore_patterns, &lower)
}

/// The files of one kind, in their order.
pub open spec fn of_kind(
    files: Seq<Seq<char>>,
    root: Seq<char>,
    patterns: Seq<Seq<char>>,
    kind: FileKind,
) -> Seq<Seq<char>>
    decreases files.len(),
{
    if files.len() == 0 {
        Seq::empty()
    } else {
        let before = of_kind(files.drop_last(), root, patterns, kind);
        if file_kind(files.last(), root, patterns) == kind {
            before.push(files.last())
        } else {
            before
        }
    }
}

/// The last of the texts.
pub open spec fn last_of(files: Seq<Seq<char>>) -> Option<Seq<char>> {
    if files.len() == 0 {
        None
    } else {
        Some(files.last())
    }
}

/// The sources among the files under a directory, with the configuration and
/// the package manifest: the last of each where there are several.
pub fn find_files(dir: &str, files: &Vec<String>, ignore_patterns: &Vec<String>) -> (r: (
    Vec<String>,
    Option<String>,
    Option<String>,
))
    ensures
        ({
            let f = files.deep_view();
            let p = ignore_patterns.deep_view();
            &&& r.0.deep_view() == of_kind(f, dir@, p, FileKind::Source)
            &&& r.1.deep_view() == last_of(of_kind(f, dir@, p, FileKind::Config))
            &&& r.2.deep_view() == last_of(of_kind(f, dir@, p, FileKind::Package))
        }),
{
    let ghost f = files.deep_view();
    let ghost p = ignore_patterns.deep_view();
    let mut sources: Vec<String> = Vec::new();
    assert(sources.deep_view() =~= Seq::empty());
    let mut config: Option<String> = None;
    let mut package: Option<String> = None;
    let mut i: usize = 0;
    while i < files.len()
        invariant
            i <= files@.len(),
            f == files.deep_view(),
            p == ignore_patterns.deep_view(),
            sources.deep_view() == of_kind(f.take(i as int), dir@, p, FileKind::Source),
            config.deep_view() == last_of(of_kind(f.take(i as int), dir@, p, FileKind::Config)),
            package.deep_view() == last_of(of_kind(f.take(i as int), dir@, p, FileKind::Package)),
        decreases files@.len() - i,
    {
        assert(f.take(i + 1).drop_last() =~= f.take(i as int));
        assert(f[i as int] == files@[i as int]@);
        match classify_file(&files[i], dir, ignore_patterns) {
            FileKind::Source => {
                text::push_deep(&mut sources, files[i].clone());
            },
            FileKind::Config => {
                config = Some(files[i].clone());
            },
            FileKind::Package => {
                package = Some(files[i].clone());
            },
            FileKind::Skipped => {},
        }
        i += 1;
    }
    assert(f.take(i as int) =~= f);
    (sources, config, package)
}

/// The files found so far, followed by those of another directory that are not
/// yet among them.
pub open spec fn with_more(found: Seq<Seq<char>>, more: Seq<Seq<char>>) -> Seq<Seq<char>>
    decreases more.len(),
{
    if more.len() == 0 {
        found
    } else {
        let before = with_more(found, more.drop_last());
        if text::among(more.last(), before) {
            before
        } else {
            before.push(more.last())
        }
    }
}

/// Adds the files of another directory to those found so far, each file once.
pub fn add_files(found: Vec<String>, more: &Vec<String>) -> (r: Vec<String>)
    ensures
        r.deep_view() == with_more(found.deep_view(), more.deep_view()),
{
    let ghost f = found.deep_view();
    let ghost m = more.deep_view();
    let mut all = found;
    let mut i: usize = 0;
    assert(m.take(0) =~= Seq::empty());
    while i < more.len()
        invariant
            i <= more@.len(),
            m == more.deep_view(),
            all.deep_view() == with_more(f, m.take(i as int)),
        decreases more@.len() - i,
    {
        assert(m.take(i + 1).drop_last() =~= m.take(i as int));
        assert(m[i as int] == more@[i as int]@);
        if !text::is_among(&more[i], &all) {
            text::push_deep(&mut all, more[i].clone());
        }
        i += 1;
    }
    assert(m.take(i as int) =~= m);
    all
}

/// Adding files keeps those found so far in front, loses none of the others,
/// and lists no file twice that was not listed twice before.
pub proof fn law_files_are_added_once(found: Seq<Seq<char>>, more: Seq<Seq<char>>)
    ensures
        found.is_prefix_of(with_more(found, more)),
        forall|file: Seq<char>| #[trigger]
            text::among(file, with_more(found, more)) <==> text::among(file, found) || text::among(
                file,
                more,
            ),
        found.no_duplicates() ==> with_more(found, more).no_duplicates(),
    decreases more.len(),
{
    let all = with_more(found, more);
    if more.len() == 0 {
        assert(found.subrange(0, found.len() as int) =~= found);
    } else {
        let front = more.drop_last();
        let before = with_more(found, front);
        law_files_are_added_once(found, front);
        assert(found.is_prefix_of(all)) by {
            assert(all.subrange(0, found.len() as int) =~= before.subrange(0, found.len() as int));
        }
        assert forall|file: Seq<char>| #[trigger]
            text::among(file, all) <==> text::among(file, found) || text::among(file, more) by {
            assert(text::among(file, before) <==> text::among(file, found) || text::among(
                file,
                front,
            ));
            if text::among(file, all) {
                let i = choose|i: int| 0 <= i < all.len() && #[trigger] all[i] == file;
                if i < before.len() {
                    assert(before[i] == file);
                    assert(text::among(file, before));
                    if text::among(file, front) {
                        let j = choose|j: int| 0 <= j < front.len() && #[trigger] front[j] == file;
                        assert(more[j] == file);
                    }
                } else {
                    assert(more[more.len() - 1] == file);
                }
            }
            if text::among(file, before) {
                let i = choose|i: int| 0 <= i < before.len() && #[trigger] before[i] == file;
                assert(all[i] == file);
            }
            if text::among(file, more) {
                let j = choose|j: int| 0 <= j < more.len() && #[trigger] more[j] == file;
                if j < front.len() {
                    assert(front[j] == file);
                    assert(text::among(file, front));
                } else if !text::among(file, before) {
                    assert(all[before.len() as int] == file);
                }
            }
        }
        if found.no_duplicates() && !text::among(more.last(), before) {
            assert forall|i: int, j: int| 0 <= i < j < all.len() implies all[i] != all[j] by {
                if j == before.len() {
                    assert(before[i] != more.last());
                }
            }
        }
    }
}

/// No test is among the sources.
pub proof fn law_no_test_is_a_source(path: Seq<char>, root: Seq<char>, patterns: Seq<Seq<char>>)
    requires
        leads_to_test(path, root),
    ensures
        file_kind(path, root, patterns) != FileKind::Source,
{
}

} // verus!
