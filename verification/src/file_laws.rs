//! What holds of the files that are analysed, and of what is kept between runs.

use vstd::prelude::*;

use crate::cloud_storage::CloudRepoData;
use crate::file_analysis::{FileAnalysisResult, FileResult};
use crate::file_finder::FileKind;
use crate::incremental::{GuidancePlan, ManifestModel};
use crate::{file_finder, incremental, paths, report_laws, text, text_laws};

verus! {

// ---------------------------------------------------------------------------
// Paths
// ---------------------------------------------------------------------------

/// Whether a text can be a name in a path.
pub open spec fn is_name(s: Seq<char>) -> bool {
    s.len() > 0 && !s.contains('/') && s != "."@ && s != ".."@
}

/// Whether each text can be a name in a path.
pub open spec fn are_names(parts: Seq<Seq<char>>) -> bool {
    forall|i: int| 0 <= i < parts.len() ==> is_name(#[trigger] parts[i])
}

/// The relative path of the names.
pub open spec fn relative_path(parts: Seq<Seq<char>>) -> Seq<char> {
    text::join_spec(parts, "/"@)
}

proof fn lemma_kept(parts: Seq<Seq<char>>)
    requires
        are_names(parts),
    ensures
        paths::kept_components(parts) == parts,
    decreases parts.len(),
{
    if parts.len() > 0 {
        let front = parts.drop_last();
        assert forall|i: int| 0 <= i < front.len() implies is_name(#[trigger] front[i]) by {
            assert(parts[i] == front[i]);
        }
        lemma_kept(front);
        assert(is_name(parts[parts.len() - 1]));
        assert(front.push(parts.last()) =~= parts);
    }
}

proof fn lemma_split_path(parts: Seq<Seq<char>>)
    requires
        parts.len() > 0,
        are_names(parts),
    ensures
        text::split_spec(relative_path(parts), '/') == parts,
{
    reveal_strlit("/");
    assert("/"@ =~= seq!['/']);
    assert forall|i: int| 0 <= i < parts.len() implies !(#[trigger] parts[i]).contains('/') by {
        assert(is_name(parts[i]));
    }
    text::lemma_split_join(parts, '/');
}

/// The components of a relative path are its names.
pub proof fn law_components_of_relative(parts: Seq<Seq<char>>)
    requires
        parts.len() > 0,
        are_names(parts),
    ensures
        paths::components(relative_path(parts)) == parts,
{
    let path = relative_path(parts);
    lemma_split_path(parts);
    lemma_kept(parts);
    assert(is_name(parts[0]));
    if path.len() > 0 && path[0] == '/' {
        text::lemma_split_first(path, '/', 0);
        assert(path.take(0).len() == 0);
    }
    if paths::begins_with_dot(path) {
        reveal_strlit(".");
        text::lemma_split_first(path, '/', 1);
        assert(path.take(1) =~= "."@);
    }
    assert(Seq::<Seq<char>>::empty() + parts =~= parts);
}

/// The components of an absolute path are the root and its names.
pub proof fn law_components_of_absolute(parts: Seq<Seq<char>>)
    requires
        parts.len() > 0,
        are_names(parts),
    ensures
        paths::components("/"@ + relative_path(parts)) == seq!["/"@] + parts,
{
    reveal_strlit("/");
    assert("/"@ =~= seq!['/']);
    let path = "/"@ + relative_path(parts);
    let none = Seq::<char>::empty();
    let all = seq![none] + parts;
    assert forall|i: int| 0 <= i < all.len() implies !(#[trigger] all[i]).contains('/') by {
        if i > 0 {
            assert(is_name(parts[i - 1]));
        }
    }
    text::lemma_split_join(all, '/');
    lemma_join_behind(parts);
    assert(path[0] == '/');
    lemma_kept(parts);
    lemma_kept_behind(parts);
}

proof fn lemma_join_behind(parts: Seq<Seq<char>>)
    requires
        parts.len() > 0,
    ensures
        text::join_spec(seq![Seq::<char>::empty()] + parts, "/"@) == "/"@ + text::join_spec(
            parts,
            "/"@,
        ),
    decreases parts.len(),
{
    let none = Seq::<char>::empty();
    let all = seq![none] + parts;
    if parts.len() == 1 {
        assert(all.drop_last() =~= seq![none]);
        assert(text::join_spec(seq![none], "/"@) == none);
        assert(none + "/"@ + parts[0] =~= "/"@ + parts[0]);
    } else {
        lemma_join_behind(parts.drop_last());
        assert(all.drop_last() =~= seq![none] + parts.drop_last());
        assert(text::join_spec(all, "/"@) =~= "/"@ + text::join_spec(parts, "/"@));
    }
}

proof fn lemma_kept_behind(parts: Seq<Seq<char>>)
    ensures
        paths::kept_components(seq![Seq::<char>::empty()] + parts) == paths::kept_components(parts),
    decreases parts.len(),
{
    let none = Seq::<char>::empty();
    let all = seq![none] + parts;
    if parts.len() == 0 {
        assert(all.drop_last() =~= Seq::empty());
        reveal_with_fuel(paths::kept_components, 2);
    } else {
        lemma_kept_behind(parts.drop_last());
        assert(all.drop_last() =~= seq![none] + parts.drop_last());
    }
}

/// What is left of a path below a directory is the names that follow.
pub proof fn law_rest_below_a_directory(root: Seq<Seq<char>>, rest: Seq<Seq<char>>)
    requires
        root.len() > 0,
        rest.len() > 0,
        are_names(root),
        are_names(rest),
    ensures
        paths::relative_to(relative_path(root + rest), relative_path(root)) == relative_path(rest),
{
    let all = root + rest;
    assert forall|i: int| 0 <= i < all.len() implies is_name(#[trigger] all[i]) by {
        if i < root.len() {
            assert(root[i] == all[i]);
        } else {
            assert(rest[i - root.len()] == all[i]);
        }
    }
    law_components_of_relative(all);
    law_components_of_relative(root);
    lemma_split_path(all);
    let path = relative_path(all);
    assert(root =~= all.subrange(0, root.len() as int));
    assert(paths::head(path) =~= Seq::empty()) by {
        if paths::head(path).len() > 0 {
            assert(paths::components(path).len() == 1 + paths::names(path).len());
            lemma_kept(all);
        }
    }
    assert(all.skip(0) =~= all);
    lemma_after(root, rest);
    assert(is_name(rest[0]));
    assert(is_name(rest[rest.len() - 1]));
}

proof fn lemma_after(root: Seq<Seq<char>>, rest: Seq<Seq<char>>)
    requires
        are_names(root),
    ensures
        paths::after_components(root + rest, root.len()) == rest,
    decreases root.len(),
{
    if root.len() == 0 {
        assert(root + rest =~= rest);
    } else {
        let all = root + rest;
        assert(is_name(root[0]));
        assert(all[0] == root[0]);
        assert(all.skip(1) =~= root.skip(1) + rest);
        assert forall|i: int| 0 <= i < root.skip(1).len() implies is_name(
            #[trigger] root.skip(1)[i],
        ) by {
            assert(root[i + 1] == root.skip(1)[i]);
        }
        lemma_after(root.skip(1), rest);
    }
}

// ---------------------------------------------------------------------------
// Which files are sources
// ---------------------------------------------------------------------------

/// Whether a word is one of those by which a test directory is named, in any
/// case.
pub open spec fn names_tests(word: Seq<char>) -> bool {
    ||| text::same_ignoring_ascii_case(word, "test"@)
    ||| text::same_ignoring_ascii_case(word, "tests"@)
    ||| text::same_ignoring_ascii_case(word, "fixtures"@)
    ||| text::same_ignoring_ascii_case(word, "__tests__"@)
    ||| text::same_ignoring_ascii_case(word, "__mocks__"@)
    ||| text::same_ignoring_ascii_case(word, "__fixtures__"@)
}

/// Whether a word is an extension of JavaScript or TypeScript, in any case.
pub open spec fn is_script(word: Seq<char>) -> bool {
    ||| text::same_ignoring_ascii_case(word, "ts"@)
    ||| text::same_ignoring_ascii_case(word, "tsx"@)
    ||| text::same_ignoring_ascii_case(word, "js"@)
    ||| text::same_ignoring_ascii_case(word, "jsx"@)
}

/// Whether a name ends with `.test` or `.spec`, in any case.
pub open spec fn ends_as_test(stem: Seq<char>) -> bool {
    stem.len() >= 5 && stem[stem.len() - 5] == '.' && {
        let word = stem.skip(stem.len() - 4);
        text::same_ignoring_ascii_case(word, "test"@) || text::same_ignoring_ascii_case(
            word,
            "spec"@,
        )
    }
}

proof fn lemma_same_parts(a: Seq<char>, b: Seq<char>, c: Seq<char>, d: Seq<char>)
    requires
        a.len() == c.len(),
    ensures
        text::same_ignoring_ascii_case(a + b, c + d) <==> text::same_ignoring_ascii_case(a, c)
            && text::same_ignoring_ascii_case(b, d),
{
    let up = |x: char| text::ascii_upper(x);
    assert((a + b).map_values(up) =~= a.map_values(up) + b.map_values(up));
    assert((c + d).map_values(up) =~= c.map_values(up) + d.map_values(up));
    let x = a.map_values(up) + b.map_values(up);
    let y = c.map_values(up) + d.map_values(up);
    if x == y {
        assert(a.map_values(up) =~= x.take(a.len() as int));
        assert(c.map_values(up) =~= y.take(a.len() as int));
        assert(b.map_values(up) =~= x.skip(a.len() as int));
        assert(d.map_values(up) =~= y.skip(a.len() as int));
    }
}

proof fn lemma_test_suffix(
    stem: Seq<char>,
    extension: Seq<char>,
    word: Seq<char>,
    ending: Seq<char>,
    suffix: Seq<char>,
)
    requires
        !extension.contains('.'),
        word.len() == 4,
        !ending.contains('.'),
        suffix == "."@ + word + "."@ + ending,
    ensures
        file_finder::ends_ignoring_ascii_case(stem + "."@ + extension, suffix)
            <==> text::same_ignoring_ascii_case(extension, ending) && stem.len() >= 5 && stem[stem.len()
            - 5] == '.' && text::same_ignoring_ascii_case(stem.skip(stem.len() - 4), word),
{
    reveal_strlit(".");
    let dot = "."@;
    assert(dot =~= seq!['.']);
    let name = stem + dot + extension;
    let n = suffix.len() as int;
    assert(suffix =~= dot + (word + (dot + ending)));
    if file_finder::ends_ignoring_ascii_case(name, suffix) {
        let tail = name.skip(name.len() - n);
        text_laws::law_ascii_case(tail, suffix);
        // The dot before the ending is the last one of the name.
        assert(suffix[5] == '.');
        assert(tail[5] == suffix[5]);
        assert(name[name.len() - n + 5] == '.');
        let at = name.len() - n + 5;
        if at > stem.len() {
            assert(extension[at - stem.len() - 1] == '.');
            assert(extension.contains('.'));
        }
        if at < stem.len() {
            let k = stem.len() - (name.len() - n);
            assert(tail[k] == name[stem.len() as int]);
            assert(tail[k] == '.');
            assert(suffix[k] == ending[k - 6]);
            assert(tail[k] == suffix[k]);
            assert(ending.contains('.'));
        }
        assert(at == stem.len());
        assert(ending.len() == extension.len());
        assert(tail[0] == suffix[0]);
        assert(tail[0] == stem[stem.len() - 5]);
    }
    if ending.len() == extension.len() && stem.len() >= 5 {
        let tail = name.skip(name.len() - n);
        let first = stem.subrange(stem.len() - 5, stem.len() - 4);
        let last = stem.skip(stem.len() - 4);
        assert(tail =~= first + (last + (dot + extension)));
        lemma_same_parts(first, last + (dot + extension), dot, word + (dot + ending));
        lemma_same_parts(last, dot + extension, word, dot + ending);
        lemma_same_parts(dot, extension, dot, ending);
        text_laws::law_ascii_case(first, dot);
        assert(first[0] == stem[stem.len() - 5]);
        assert(dot[0] == '.');
        if stem[stem.len() - 5] == '.' {
            assert(first =~= dot);
        }
        assert(text::same_ignoring_ascii_case(dot, dot));
    }
    if text::same_ignoring_ascii_case(extension, ending) {
        text_laws::law_ascii_case(extension, ending);
    }
}

proof fn lemma_no_dots()
    ensures
        !"ts"@.contains('.'),
        !"tsx"@.contains('.'),
        !"js"@.contains('.'),
        !"jsx"@.contains('.'),
        "test"@.len() == 4,
        "spec"@.len() == 4,
{
    reveal_strlit("ts");
    reveal_strlit("tsx");
    reveal_strlit("js");
    reveal_strlit("jsx");
    reveal_strlit("test");
    reveal_strlit("spec");
}

proof fn lemma_suffixes()
    ensures
        ".test.ts"@ == "."@ + "test"@ + "."@ + "ts"@,
        ".test.tsx"@ == "."@ + "test"@ + "."@ + "tsx"@,
        ".test.js"@ == "."@ + "test"@ + "."@ + "js"@,
        ".test.jsx"@ == "."@ + "test"@ + "."@ + "jsx"@,
        ".spec.ts"@ == "."@ + "spec"@ + "."@ + "ts"@,
        ".spec.tsx"@ == "."@ + "spec"@ + "."@ + "tsx"@,
        ".spec.js"@ == "."@ + "spec"@ + "."@ + "js"@,
        ".spec.jsx"@ == "."@ + "spec"@ + "."@ + "jsx"@,
{
    reveal_strlit(".");
    reveal_strlit("test");
    reveal_strlit("spec");
    reveal_strlit("ts");
    reveal_strlit("tsx");
    reveal_strlit("js");
    reveal_strlit("jsx");
    reveal_strlit(".test.ts");
    reveal_strlit(".test.tsx");
    reveal_strlit(".test.js");
    reveal_strlit(".test.jsx");
    reveal_strlit(".spec.ts");
    reveal_strlit(".spec.tsx");
    reveal_strlit(".spec.js");
    reveal_strlit(".spec.jsx");
    assert(".test.ts"@ =~= "."@ + "test"@ + "."@ + "ts"@);
    assert(".test.tsx"@ =~= "."@ + "test"@ + "."@ + "tsx"@);
    assert(".test.js"@ =~= "."@ + "test"@ + "."@ + "js"@);
    assert(".test.jsx"@ =~= "."@ + "test"@ + "."@ + "jsx"@);
    assert(".spec.ts"@ =~= "."@ + "spec"@ + "."@ + "ts"@);
    assert(".spec.tsx"@ =~= "."@ + "spec"@ + "."@ + "tsx"@);
    assert(".spec.js"@ =~= "."@ + "spec"@ + "."@ + "js"@);
    assert(".spec.jsx"@ =~= "."@ + "spec"@ + "."@ + "jsx"@);
}

/// A script is a test by its name exactly where `.test` or `.spec` stands before
/// its extension.
pub proof fn law_test_names(stem: Seq<char>, extension: Seq<char>)
    requires
        !extension.contains('.'),
    ensures
        file_finder::is_test_file_name(stem + "."@ + extension) <==> is_script(extension)
            && ends_as_test(stem),
{
    lemma_no_dots();
    lemma_suffixes();
    lemma_test_suffix(stem, extension, "test"@, "ts"@, ".test.ts"@);
    lemma_test_suffix(stem, extension, "test"@, "tsx"@, ".test.tsx"@);
    lemma_test_suffix(stem, extension, "test"@, "js"@, ".test.js"@);
    lemma_test_suffix(stem, extension, "test"@, "jsx"@, ".test.jsx"@);
    lemma_test_suffix(stem, extension, "spec"@, "ts"@, ".spec.ts"@);
    lemma_test_suffix(stem, extension, "spec"@, "tsx"@, ".spec.tsx"@);
    lemma_test_suffix(stem, extension, "spec"@, "js"@, ".spec.js"@);
    lemma_test_suffix(stem, extension, "spec"@, "jsx"@, ".spec.jsx"@);
}

proof fn lemma_lower_is(e: Seq<char>, word: Seq<char>)
    requires
        text::is_ascii_text(e),
        forall|i: int| 0 <= i < word.len() ==> 'a' <= #[trigger] word[i] <= 'z',
    ensures
        text::lowercase_text(e) == word <==> text::same_ignoring_ascii_case(e, word),
{
    text_laws::law_ascii_case(e, word);
    let lower = text::lowercase_text(e);
    assert(lower =~= text::ascii_lower_text(e));
    assert(lower.len() == e.len());
    if lower == word {
        assert forall|i: int| 0 <= i < e.len() implies (#[trigger] e[i]) == word[i] || ('a' <= e[i]
            <= 'z' && e[i] as u32 == word[i] as u32 + 32) || ('a' <= word[i] <= 'z' && word[i] as u32
            == e[i] as u32 + 32) by {
            assert(lower[i] == text::ascii_lower(e[i]));
        }
    }
    if text::same_ignoring_ascii_case(e, word) {
        assert forall|i: int| 0 <= i < word.len() implies lower[i] == word[i] by {
            assert(e[i] == word[i] || ('a' <= e[i] <= 'z' && e[i] as u32 == word[i] as u32 + 32)
                || ('a' <= word[i] <= 'z' && word[i] as u32 == e[i] as u32 + 32));
            assert('a' <= word[i] <= 'z');
            assert(lower[i] == text::ascii_lower(e[i]));
        }
        assert(lower =~= word);
    }
}

proof fn lemma_script(e: Seq<char>)
    requires
        text::is_ascii_text(e),
    ensures
        file_finder::is_source_extension(text::lowercase_text(e)) == is_script(e),
{
    reveal_strlit("ts");
    reveal_strlit("tsx");
    reveal_strlit("js");
    reveal_strlit("jsx");
    lemma_lower_is(e, "ts"@);
    lemma_lower_is(e, "tsx"@);
    lemma_lower_is(e, "js"@);
    lemma_lower_is(e, "jsx"@);
}

/// Whether one of the names is that of a test directory.
pub open spec fn any_names_tests(parts: Seq<Seq<char>>) -> bool {
    exists|i: int| 0 <= i < parts.len() && names_tests(#[trigger] parts[i])
}

/// Whether a path holds one of the patterns somewhere.
pub open spec fn holds_pattern(path: Seq<char>, patterns: Seq<Seq<char>>) -> bool {
    exists|i: int, at: int|
        0 <= i < patterns.len() && 0 <= at && at + (#[trigger] patterns[i]).len() <= path.len()
            && #[trigger] path.subrange(at, at + patterns[i].len()) == patterns[i]
}

proof fn lemma_ignored(path: Seq<char>, patterns: Seq<Seq<char>>)
    ensures
        file_finder::is_ignored(path, patterns) == holds_pattern(path, patterns),
{
    if file_finder::is_ignored(path, patterns) {
        let i = choose|i: int| 0 <= i < patterns.len() && text::has_text(path, #[trigger] patterns[i]);
        text::lemma_find_from(path, patterns[i], 0);
        let at = text::find_from(path, patterns[i], 0)->0;
        assert(path.subrange(at, at + patterns[i].len()) == patterns[i]);
    }
    if holds_pattern(path, patterns) {
        let (i, at) = choose|i: int, at: int|
            0 <= i < patterns.len() && 0 <= at && at + (#[trigger] patterns[i]).len() <= path.len()
                && #[trigger] path.subrange(at, at + patterns[i].len()) == patterns[i];
        text::lemma_find_from(path, patterns[i], 0);
        assert(text::stands_at(path, patterns[i], at));
    }
}

/// A file below the root is a source exactly where it is a script, holds none of
/// the patterns, is no test by its name, and no directory between the root and it
/// holds tests. Above the root, directories of tests do not matter.
pub proof fn law_sources(
    root: Seq<Seq<char>>,
    dirs: Seq<Seq<char>>,
    stem: Seq<char>,
    extension: Seq<char>,
    patterns: Seq<Seq<char>>,
)
    requires
        root.len() > 0,
        are_names(root),
        are_names(dirs),
        stem.len() > 0,
        is_name(stem + "."@ + extension),
        !extension.contains('.'),
        text::is_ascii_text(extension),
        extension != "json"@,
    ensures
        ({
            let file = stem + "."@ + extension;
            let path = relative_path(root + dirs.push(file));
            let is_source = is_script(extension) && !ends_as_test(stem) && !any_names_tests(
                dirs.push(file),
            ) && !holds_pattern(path, patterns);
            file_finder::file_kind(path, relative_path(root), patterns) == if is_source {
                FileKind::Source
            } else {
                FileKind::Skipped
            }
        }),
{
    reveal_strlit(".");
    let file = stem + "."@ + extension;
    let below = dirs.push(file);
    let all = root + below;
    let path = relative_path(all);
    assert forall|i: int| 0 <= i < all.len() implies is_name(#[trigger] all[i]) by {
        if i < root.len() {
            assert(root[i] == all[i]);
        } else if i < root.len() + dirs.len() {
            assert(dirs[i - root.len()] == all[i]);
        }
    }
    law_components_of_relative(all);
    law_components_of_relative(root);
    assert(all.last() == file);
    assert(file != "/"@) by {
        reveal_strlit("/");
        if file == "/"@ {
            assert(file[0] == '/');
            assert(file.contains(file[0]));
        }
    }
    assert(file_finder::file_name_of(path) == Some(file));
    lemma_extension(stem, extension);
    if file == "carrick.json"@ || file == "package.json"@ {
        lemma_json_name(stem, extension);
    }
    lemma_script(extension);
    law_test_names(stem, extension);
    lemma_ignored(path, patterns);
    assert(root =~= all.subrange(0, root.len() as int));
    assert(all.skip(root.len() as int) =~= below);
    assert(file_finder::any_test_dir(below) == any_names_tests(below)) by {
        if any_names_tests(below) {
            let i = choose|i: int| 0 <= i < below.len() && names_tests(#[trigger] below[i]);
            assert(file_finder::is_test_dir_name(below[i]));
        }
        if file_finder::any_test_dir(below) {
            let i = choose|i: int|
                0 <= i < below.len() && file_finder::is_test_dir_name(#[trigger] below[i]);
            assert(names_tests(below[i]));
        }
    }
}

proof fn lemma_extension(stem: Seq<char>, extension: Seq<char>)
    requires
        !extension.contains('.'),
    ensures
        text::rsplit_once_spec(stem + "."@ + extension, '.') == Some((stem, extension)),
{
    reveal_strlit(".");
    let file = stem + "."@ + extension;
    text::lemma_last_index(file, '.');
    let at = text::last_index(file, '.');
    assert(file[stem.len() as int] == '.');
    if at > stem.len() {
        assert(extension[at - stem.len() - 1] == file[at]);
        assert(extension.contains(extension[at - stem.len() - 1]));
    }
    assert(file.take(at) =~= stem);
    assert(file.skip(at + 1) =~= extension);
}

proof fn lemma_json_name(stem: Seq<char>, extension: Seq<char>)
    requires
        !extension.contains('.'),
        stem + "."@ + extension == "carrick.json"@ || stem + "."@ + extension == "package.json"@,
    ensures
        extension == "json"@,
{
    reveal_strlit(".");
    reveal_strlit("json");
    reveal_strlit("carrick");
    reveal_strlit("package");
    reveal_strlit("carrick.json");
    reveal_strlit("package.json");
    assert("carrick.json"@ =~= "carrick"@ + "."@ + "json"@);
    assert("package.json"@ =~= "package"@ + "."@ + "json"@);
    assert(!"json"@.contains('.'));
    lemma_extension(stem, extension);
    lemma_extension("carrick"@, "json"@);
    lemma_extension("package"@, "json"@);
}

/// `carrick.json` is the configuration and `package.json` a package manifest,
/// wherever they lie, unless a pattern leaves them out.
pub proof fn law_named_files(parts: Seq<Seq<char>>, root: Seq<char>, patterns: Seq<Seq<char>>)
    requires
        are_names(parts),
    ensures
        ({
            let config = relative_path(parts.push("carrick.json"@));
            let package = relative_path(parts.push("package.json"@));
            &&& !holds_pattern(config, patterns) ==> file_finder::file_kind(config, root, patterns)
                == FileKind::Config
            &&& !holds_pattern(package, patterns) ==> file_finder::file_kind(package, root, patterns)
                == FileKind::Package
            &&& holds_pattern(config, patterns) ==> file_finder::file_kind(config, root, patterns)
                == FileKind::Skipped
            &&& holds_pattern(package, patterns) ==> file_finder::file_kind(package, root, patterns)
                == FileKind::Skipped
        }),
{
    reveal_strlit("carrick.json");
    reveal_strlit("package.json");
    reveal_strlit("/");
    reveal_strlit(".");
    reveal_strlit("..");
    let a = parts.push("carrick.json"@);
    let b = parts.push("package.json"@);
    assert(is_name("carrick.json"@));
    assert(is_name("package.json"@));
    assert forall|i: int| 0 <= i < a.len() implies is_name(#[trigger] a[i]) by {
        if i < parts.len() {
            assert(parts[i] == a[i]);
        }
    }
    assert forall|i: int| 0 <= i < b.len() implies is_name(#[trigger] b[i]) by {
        if i < parts.len() {
            assert(parts[i] == b[i]);
        }
    }
    law_components_of_relative(a);
    law_components_of_relative(b);
    lemma_ignored(relative_path(a), patterns);
    lemma_ignored(relative_path(b), patterns);
    assert("carrick.json"@[0] == 'c');
    assert("package.json"@[0] == 'p');
}

/// What is found are the files of each kind: all the sources in their order, and
/// the last of the configurations and of the package manifests.
pub proof fn law_found_files(
    files: Seq<Seq<char>>,
    root: Seq<char>,
    patterns: Seq<Seq<char>>,
    kind: FileKind,
)
    ensures
        file_finder::of_kind(files, root, patterns, kind) == files.filter(
            |file: Seq<char>| file_finder::file_kind(file, root, patterns) == kind,
        ),
    decreases files.len(),
{
    reveal(Seq::filter);
    if files.len() > 0 {
        law_found_files(files.drop_last(), root, patterns, kind);
    }
}

// ---------------------------------------------------------------------------
// Results between runs
// ---------------------------------------------------------------------------

/// Whether a path is that of a file below the root, or is written as below it.
pub open spec fn is_place(path: Seq<char>, root: Seq<char>, place: Seq<char>) -> bool {
    ||| path == root + "/"@ + place
    ||| !(root + "/"@).is_prefix_of(path) && path == "./"@ + place
    ||| !(root + "/"@).is_prefix_of(path) && !"./"@.is_prefix_of(path) && path == place
}

proof fn lemma_place(path: Seq<char>, root: Seq<char>, place: Seq<char>)
    ensures
        incremental::relative_key(path, root + "/"@) == place <==> is_place(path, root, place),
{
    let prefix = root + "/"@;
    let dot = "./"@;
    if prefix.is_prefix_of(path) {
        assert(prefix =~= path.subrange(0, prefix.len() as int));
        assert(path =~= prefix + path.skip(prefix.len() as int));
    }
    if dot.is_prefix_of(path) {
        assert(dot =~= path.subrange(0, dot.len() as int));
        assert(path =~= dot + path.skip(dot.len() as int));
    }
    if path == prefix + place {
        assert(prefix =~= path.subrange(0, prefix.len() as int));
        assert(path.skip(prefix.len() as int) =~= place);
    }
    if path == dot + place {
        assert(dot =~= path.subrange(0, dot.len() as int));
        assert(path.skip(dot.len() as int) =~= place);
    }
}

/// Whether a result is the last one of the place.
pub open spec fn is_last_of(
    results: Seq<FileResult>,
    root: Seq<char>,
    place: Seq<char>,
    i: int,
) -> bool {
    &&& 0 <= i < results.len()
    &&& is_place(results[i].path@, root, place)
    &&& forall|j: int| i < j < results.len() ==> !is_place((#[trigger] results[j]).path@, root, place)
}

/// Whether no result is of the place.
pub open spec fn none_of(results: Seq<FileResult>, root: Seq<char>, place: Seq<char>) -> bool {
    forall|j: int| 0 <= j < results.len() ==> !is_place((#[trigger] results[j]).path@, root, place)
}

proof fn lemma_with_results(
    map: Map<Seq<char>, FileAnalysisResult>,
    results: Seq<FileResult>,
    root: Seq<char>,
    place: Seq<char>,
)
    ensures
        forall|i: int| #[trigger]
            is_last_of(results, root, place, i) ==> incremental::with_results(
                map,
                results,
                root + "/"@,
            ).contains_key(place) && incremental::with_results(map, results, root + "/"@)[place]
                == results[i].result,
        none_of(results, root, place) ==> incremental::with_results(
            map,
            results,
            root + "/"@,
        ).contains_key(place) == map.contains_key(place) && (map.contains_key(place)
            ==> incremental::with_results(map, results, root + "/"@)[place] == map[place]),
    decreases results.len(),
{
    if results.len() > 0 {
        let front = results.drop_last();
        let last = results.last();
        let n = results.len() - 1;
        lemma_with_results(map, front, root, place);
        lemma_place(last.path@, root, place);
        assert forall|i: int| #[trigger] is_last_of(results, root, place, i) implies {
            &&& incremental::with_results(map, results, root + "/"@).contains_key(place)
            &&& incremental::with_results(map, results, root + "/"@)[place] == results[i].result
        } by {
            if i < n {
                assert(!is_place(results[n].path@, root, place));
                assert forall|j: int| i < j < front.len() implies !is_place(
                    (#[trigger] front[j]).path@,
                    root,
                    place,
                ) by {
                    assert(results[j] == front[j]);
                }
                assert(is_last_of(front, root, place, i));
            }
        }
        if none_of(results, root, place) {
            assert(!is_place(results[n].path@, root, place));
            assert forall|j: int| 0 <= j < front.len() implies !is_place(
                (#[trigger] front[j]).path@,
                root,
                place,
            ) by {
                assert(results[j] == front[j]);
            }
        }
    }
}

/// Whether a file is at the place.
pub open spec fn is_there(files: Seq<Seq<char>>, root: Seq<char>, place: Seq<char>) -> bool {
    exists|i: int| 0 <= i < files.len() && is_place(#[trigger] files[i], root, place)
}

/// Whether a cached result is the last one under the path.
pub open spec fn is_last_cached(cached: Seq<FileResult>, place: Seq<char>, i: int) -> bool {
    &&& 0 <= i < cached.len()
    &&& cached[i].path@ == place
    &&& forall|j: int| i < j < cached.len() ==> (#[trigger] cached[j]).path@ != place
}

proof fn lemma_cached(cached: Seq<FileResult>, place: Seq<char>)
    ensures
        forall|i: int| #[trigger]
            is_last_cached(cached, place, i) ==> incremental::results_map(cached).contains_key(place)
                && incremental::results_map(cached)[place] == cached[i].result,
    decreases cached.len(),
{
    if cached.len() > 0 {
        let front = cached.drop_last();
        let n = cached.len() - 1;
        lemma_cached(front, place);
        assert forall|i: int| #[trigger] is_last_cached(cached, place, i) implies {
            &&& incremental::results_map(cached).contains_key(place)
            &&& incremental::results_map(cached)[place] == cached[i].result
        } by {
            if i < n {
                assert(cached[n].path@ != place);
                assert forall|j: int| i < j < front.len() implies (#[trigger] front[j]).path@
                    != place by {
                    assert(cached[j] == front[j]);
                }
                assert(is_last_cached(front, place, i));
            }
        }
    }
}

/// After a run, the result of a place is the new one where the place was analysed,
/// else the cached one where its file is still there and has not changed, and
/// there is none otherwise.
pub proof fn law_merged_results(
    cached: Seq<FileResult>,
    new: Seq<FileResult>,
    files: Seq<Seq<char>>,
    changed: Seq<Seq<char>>,
    root: Seq<char>,
    place: Seq<char>,
)
    requires
        root.len() == 0 || root[root.len() - 1] != '/',
    ensures
        ({
            let merged = incremental::merged_results(cached, new, files, changed, root);
            &&& forall|i: int| #[trigger]
                is_last_of(new, root, place, i) ==> merged.contains_key(place) && merged[place]
                    == new[i].result
            &&& none_of(new, root, place) ==> {
                &&& forall|i: int| #[trigger]
                    is_last_cached(cached, place, i) && is_there(files, root, place)
                        && !changed.contains(place) ==> merged.contains_key(place) && merged[place]
                        == cached[i].result
                &&& changed.contains(place) ==> !merged.contains_key(place)
                &&& !is_there(files, root, place) ==> !merged.contains_key(place)
                &&& (forall|i: int| 0 <= i < cached.len() ==> (#[trigger] cached[i]).path@ != place)
                    ==> !merged.contains_key(place)
            }
        }),
{
    let current = incremental::current_keys(files, root);
    let kept = incremental::kept_results(cached, current, changed);
    lemma_with_results(kept, new, root, place);
    incremental::lemma_kept_results(cached, current, changed, place);
    lemma_cached(cached, place);
    assert(incremental::root_prefix(root) == root + "/"@);
    assert(text::among(place, current) == is_there(files, root, place)) by {
        if text::among(place, current) {
            let i = choose|i: int| 0 <= i < current.len() && #[trigger] current[i] == place;
            lemma_place(files[i], root, place);
            assert(is_place(files[i], root, place));
        }
        if is_there(files, root, place) {
            let i = choose|i: int| 0 <= i < files.len() && is_place(#[trigger] files[i], root, place);
            lemma_place(files[i], root, place);
            assert(current[i] == place);
        }
    }
    assert(text::among(place, changed) == changed.contains(place)) by {
        if changed.contains(place) {
            let i = choose|i: int| 0 <= i < changed.len() && changed[i] == place;
            assert(changed[i] == place);
        }
    }
    assert(incremental::has_result(cached, place) == (exists|i: int|
        0 <= i < cached.len() && (#[trigger] cached[i]).path@ == place));
}

/// A file is analysed anew exactly where it has changed or no result of it is
/// cached.
pub proof fn law_analysed_anew(
    files: Seq<Seq<char>>,
    changed: Seq<Seq<char>>,
    cached: Seq<FileResult>,
    root: Seq<char>,
    file: Seq<char>,
    place: Seq<char>,
)
    requires
        is_place(file, root, place),
    ensures
        incremental::to_analyze(files, changed, cached, root).contains(file) <==> files.contains(file)
            && (changed.contains(place) || forall|i: int|
            0 <= i < cached.len() ==> (#[trigger] cached[i]).path@ != place),
    decreases files.len(),
{
    lemma_place(file, root, place);
    assert(text::among(place, changed) == changed.contains(place)) by {
        if changed.contains(place) {
            let i = choose|i: int| 0 <= i < changed.len() && changed[i] == place;
            assert(changed[i] == place);
        }
    }
    if files.len() > 0 {
        let front = files.drop_last();
        law_analysed_anew(front, changed, cached, root, file, place);
        let before = incremental::to_analyze(front, changed, cached, root);
        let after = incremental::to_analyze(files, changed, cached, root);
        if front.contains(file) {
            let i = choose|i: int| 0 <= i < front.len() && front[i] == file;
            assert(files[i] == file);
        }
        assert(files[files.len() - 1] == files.last());
        if files.contains(file) {
            let i = choose|i: int| 0 <= i < files.len() && files[i] == file;
            if i < front.len() {
                assert(front[i] == file);
            }
        }
        if before.contains(file) {
            let i = choose|i: int| 0 <= i < before.len() && before[i] == file;
            assert(after[i] == file);
        }
        if after.contains(file) {
            let i = choose|i: int| 0 <= i < after.len() && after[i] == file;
            if i < before.len() {
                assert(before[i] == file);
            }
        }
        if files.last() == file && incremental::needs_analysis(file, changed, cached, root) {
            assert(after[before.len() as int] == file);
        }
    }
}

/// The cache is used only as it was written by this version, and what depends on
/// the dependencies only as long as their hash is the same.
pub proof fn law_cache_is_used(data: CloudRepoData, hash: Seq<char>)
    ensures
        incremental::has_usable_cache(data) <==> data.file_results is Some && (
        data.cache_version matches Some(version) && version == incremental::CACHE_VERSION),
        incremental::guidance_plan(data, hash) != GuidancePlan::Renew <==> data.cached_detection
            is Some && data.cached_guidance is Some && (data.package_json_hash matches Some(h) && h@
            == hash),
        incremental::guidance_plan(data, hash) == GuidancePlan::Reuse ==> data.cached_extraction_config
            is Some,
        incremental::guidance_plan(data, hash) == GuidancePlan::ReuseWithoutRules
            ==> data.cached_extraction_config is None,
{
}

/// Of the changed files those count that have an extension of JavaScript or
/// TypeScript.
pub proof fn law_changed_sources(
    lines: Seq<Seq<char>>,
    dirs: Seq<Seq<char>>,
    stem: Seq<char>,
    extension: Seq<char>,
)
    requires
        are_names(dirs),
        stem.len() > 0,
        is_name(stem + "."@ + extension),
        !extension.contains('.'),
    ensures
        ({
            let line = relative_path(dirs.push(stem + "."@ + extension));
            incremental::changed_sources(lines).contains(line) <==> lines.contains(line) && (extension
                == "ts"@ || extension == "tsx"@ || extension == "js"@ || extension == "jsx"@)
        }),
    decreases lines.len(),
{
    reveal_strlit("/");
    let file = stem + "."@ + extension;
    let parts = dirs.push(file);
    let line = relative_path(parts);
    assert forall|i: int| 0 <= i < parts.len() implies is_name(#[trigger] parts[i]) by {
        if i < dirs.len() {
            assert(dirs[i] == parts[i]);
        }
    }
    law_components_of_relative(parts);
    assert(file != "/"@) by {
        if file == "/"@ {
            assert(file[0] == '/');
            assert(file.contains(file[0]));
        }
    }
    assert(file_finder::file_name_of(line) == Some(file));
    lemma_extension(stem, extension);
    assert(line.len() > 0) by {
        if line.len() == 0 {
            assert(text::split_spec(line, '/') =~= seq![Seq::<char>::empty()]);
            lemma_split_path(parts);
            assert(is_name(parts[0]));
        }
    }
    if lines.len() > 0 {
        let front = lines.drop_last();
        law_changed_sources(front, dirs, stem, extension);
        let before = incremental::changed_sources(front);
        let after = incremental::changed_sources(lines);
        assert(lines[lines.len() - 1] == lines.last());
        if front.contains(line) {
            let i = choose|i: int| 0 <= i < front.len() && front[i] == line;
            assert(lines[i] == line);
        }
        if lines.contains(line) {
            let i = choose|i: int| 0 <= i < lines.len() && lines[i] == line;
            if i < front.len() {
                assert(front[i] == line);
            }
        }
        if before.contains(line) {
            let i = choose|i: int| 0 <= i < before.len() && before[i] == line;
            assert(after[i] == line);
        }
        if after.contains(line) {
            let i = choose|i: int| 0 <= i < after.len() && after[i] == line;
            if i < before.len() {
                assert(before[i] == line);
            }
        }
        if lines.last() == line && incremental::is_changed_source(line) {
            assert(after[before.len() as int] == line);
        }
    }
}

/// Whatever is hashed of the manifests holds the place and the content of each of
/// them, closed by a zero character.
pub proof fn law_hashed_manifests(manifests: Seq<ManifestModel>, i: int)
    requires
        0 <= i < manifests.len(),
    ensures
        report_laws::holds(
            incremental::combined_manifests(manifests),
            manifests[i].relative + "\0"@ + manifests[i].content + "\0"@,
        ),
    decreases manifests.len(),
{
    let part = manifests[i].relative + "\0"@ + manifests[i].content + "\0"@;
    let front = manifests.drop_last();
    let before = incremental::combined_manifests(front);
    let m = manifests.last();
    let last = m.relative + "\0"@ + m.content + "\0"@;
    assert(incremental::combined_manifests(manifests) =~= before + last);
    if i < front.len() {
        law_hashed_manifests(front, i);
    } else {
        assert(part =~= Seq::<char>::empty() + part + Seq::<char>::empty());
    }
    report_laws::lemma_holds_in_sum(before, last, part);
}

/// A manifest is hashed under its path from the root of the repository; one that
/// cannot be read counts as empty.
pub proof fn law_manifest_text(path: Seq<char>, content: Option<Seq<char>>, repo_path: Seq<char>)
    ensures
        incremental::manifest_model(path, content, repo_path).relative == paths::relative_to(
            path,
            repo_path,
        ),
        content matches Some(c) ==> incremental::manifest_model(path, content, repo_path).content
            == c,
        content is None ==> incremental::manifest_model(path, content, repo_path).content.len() == 0,
{
}

} // verus!
