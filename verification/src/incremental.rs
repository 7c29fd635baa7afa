//! Incremental analysis: which files are analysed anew, and how their results
//! are put together with those of the last run.

use vstd::prelude::*;

use crate::cloud_storage::CloudRepoData;
use crate::file_analysis::{
    DataCallResult, EndpointResult, FileAnalysisResult, FileResult, MountResult,
};
use crate::framework_detector::DetectionResult;
use crate::packages::Packages;
use crate::sorting::{Keyed, SortKey};
use crate::{file_finder, hashing, paths, sorting, text};

verus! {

// ---------------------------------------------------------------------------
// The cache
// ---------------------------------------------------------------------------

/// The version of the cached results.
pub const CACHE_VERSION: u32 = 4;

/// Whether the cached results of a run can be used: there are some, of this
/// version.
pub open spec fn has_usable_cache(data: CloudRepoData) -> bool {
    data.file_results is Some && data.cache_version == Some(CACHE_VERSION)
}

/// Whether the cached results of the last run can be used.
pub fn can_use_incremental(previous: Option<&CloudRepoData>) -> (r: bool)
    ensures
        r == (previous matches Some(data) && has_usable_cache(*data)),
{
    match previous {
        Some(data) => data.file_results.is_some() && match data.cache_version {
            Some(version) => version == CACHE_VERSION,
            None => false,
        },
        None => false,
    }
}

/// Where the results that depend on the dependencies come from.
#[derive(Clone, Copy, PartialEq, Eq, Structural, Debug)]
pub enum GuidancePlan {
    /// All from the cache.
    Reuse,
    /// From the cache, except that the extraction rules are made anew.
    ReuseWithoutRules,
    /// All anew.
    Renew,
}

/// Where the results that depend on the dependencies come from: from the cache
/// only if no manifest has changed.
pub open spec fn guidance_plan(data: CloudRepoData, package_json_hash: Seq<char>) -> GuidancePlan {
    if data.package_json_hash.deep_view() == Some(package_json_hash) && data.cached_detection is Some
        && data.cached_guidance is Some {
        if data.cached_extraction_config is Some {
            GuidancePlan::Reuse
        } else {
            GuidancePlan::ReuseWithoutRules
        }
    } else {
        GuidancePlan::Renew
    }
}

/// Where the results that depend on the dependencies come from.
pub fn plan_guidance(data: &CloudRepoData, package_json_hash: &str) -> (r: GuidancePlan)
    ensures
        r == guidance_plan(*data, package_json_hash@),
{
    let same = match &data.package_json_hash {
        Some(hash) => text::same_text(hash, package_json_hash),
        None => false,
    };
    if same && data.cached_detection.is_some() && data.cached_guidance.is_some() {
        if data.cached_extraction_config.is_some() {
            GuidancePlan::Reuse
        } else {
            GuidancePlan::ReuseWithoutRules
        }
    } else {
        GuidancePlan::Renew
    }
}

/// Whether the results are the same without what only diagnosis needs.
pub open spec fn results_stripped(before: Seq<FileResult>, after: Seq<FileResult>) -> bool {
    after.len() == before.len() && forall|i: int|
        #![trigger before[i]]
        0 <= i < before.len() ==> after[i].path == before[i].path && result_stripped(
            before[i].result,
            after[i].result,
        )
}

/// Whether a record was filled with what the next run can use, and is
/// otherwise the same.
pub open spec fn is_filled(
    before: CloudRepoData,
    after: CloudRepoData,
    file_results: Seq<FileResult>,
    detection: DetectionResult,
    guidance: String,
    extraction_config: Option<String>,
    package_json_hash: String,
) -> bool {
    &&& after.file_results matches Some(results) && results_stripped(file_results, results@)
    &&& after == (CloudRepoData {
        file_results: after.file_results,
        cached_detection: Some(detection),
        cached_guidance: Some(guidance),
        cached_extraction_config: extraction_config,
        package_json_hash: Some(package_json_hash),
        cache_version: Some(CACHE_VERSION),
        ..before
    })
}

/// Puts into a record what the next run can use: the results of its files, as
/// far as they are of use, and what depends on the dependencies.
pub fn fill_cache(
    data: &mut CloudRepoData,
    file_results: Vec<FileResult>,
    detection: DetectionResult,
    guidance: String,
    extraction_config: Option<String>,
    package_json_hash: String,
)
    ensures
        is_filled(
            *old(data),
            *final(data),
            file_results@,
            detection,
            guidance,
            extraction_config,
            package_json_hash,
        ),
{
    let mut cached = file_results;
    strip_diagnostic_fields(&mut cached);
    data.file_results = Some(cached);
    data.cached_detection = Some(detection);
    data.cached_guidance = Some(guidance);
    data.cached_extraction_config = extraction_config;
    data.package_json_hash = Some(package_json_hash);
    data.cache_version = Some(CACHE_VERSION);
}

/// What a run puts into the cache, the next run can use, and as long as no
/// manifest changes it uses all of it but rules that were not made.
pub proof fn law_filled_cache_is_usable(
    before: CloudRepoData,
    after: CloudRepoData,
    file_results: Seq<FileResult>,
    detection: DetectionResult,
    guidance: String,
    extraction_config: Option<String>,
    package_json_hash: String,
)
    requires
        is_filled(
            before,
            after,
            file_results,
            detection,
            guidance,
            extraction_config,
            package_json_hash,
        ),
    ensures
        has_usable_cache(after),
        guidance_plan(after, package_json_hash@) == (if extraction_config is Some {
            GuidancePlan::Reuse
        } else {
            GuidancePlan::ReuseWithoutRules
        }),
{
}

// ---------------------------------------------------------------------------
// Changes
// ---------------------------------------------------------------------------

/// Whether a changed file is a source.
pub open spec fn is_changed_source(line: Seq<char>) -> bool {
    file_finder::extension_of(line) matches Some(e) && (e == "ts"@ || e == "tsx"@ || e == "js"@ || e
        == "jsx"@)
}

/// The sources among the changed files.
pub open spec fn changed_sources(lines: Seq<Seq<char>>) -> Seq<Seq<char>>
    decreases lines.len(),
{
    if lines.len() == 0 {
        Seq::empty()
    } else {
        let before = changed_sources(lines.drop_last());
        if lines.last().len() > 0 && is_changed_source(lines.last()) {
            before.push(lines.last())
        } else {
            before
        }
    }
}

/// The sources among the files that `git diff --name-only` lists.
pub fn parse_changed_files(stdout: &str) -> (r: Vec<String>)
    ensures
        r.deep_view() == changed_sources(text::lines_spec(stdout@)),
{
    let lines = text::lines(stdout);
    let ghost l = lines.deep_view();
    let mut out: Vec<String> = Vec::new();
    assert(out.deep_view() =~= Seq::empty());
    let mut i: usize = 0;
    while i < lines.len()
        invariant
            i <= lines@.len(),
            l == lines.deep_view(),
            out.deep_view() == changed_sources(l.take(i as int)),
        decreases lines@.len() - i,
    {
        assert(l.take(i + 1).drop_last() =~= l.take(i as int));
        assert(l[i as int] == lines@[i as int]@);
        let source = match file_finder::extension(&lines[i]) {
            Some(e) => text::same_text(&e, "ts") || text::same_text(&e, "tsx") || text::same_text(
                &e,
                "js",
            ) || text::same_text(&e, "jsx"),
            None => false,
        };
        if !lines[i].as_str().is_empty() && source {
            text::push_deep(&mut out, lines[i].clone());
        }
        i += 1;
    }
    assert(l.take(i as int) =~= l);
    out
}

/// Why the changes are not known, where `git diff` failed.
pub open spec fn diff_failure(shallow: bool, base_commit: Seq<char>, stderr: Seq<char>) -> Seq<char> {
    if shallow {
        "Incremental mode unavailable: this is a shallow clone, so the previous scan's commit isn't reachable for diffing. Set `fetch-depth: 0` on actions/checkout to avoid re-analyzing every file on each run."@
    } else {
        "Incremental mode unavailable: git diff against "@ + base_commit + " failed ("@
            + text::trim_spec(stderr) + "). Falling back to full analysis."@
    }
}

/// Why the changes are not known, where `git diff` failed.
pub fn diff_failure_warning(shallow: bool, base_commit: &str, stderr: &str) -> (r: String)
    ensures
        r@ == diff_failure(shallow, base_commit@, stderr@),
{
    if shallow {
        text::owned(
            "Incremental mode unavailable: this is a shallow clone, so the previous scan's commit isn't reachable for diffing. Set `fetch-depth: 0` on actions/checkout to avoid re-analyzing every file on each run.",
        )
    } else {
        text::cat5(
            "Incremental mode unavailable: git diff against ",
            base_commit,
            " failed (",
            &text::trim(stderr),
            "). Falling back to full analysis.",
        )
    }
}

// ---------------------------------------------------------------------------
// Whether the dependencies changed
// ---------------------------------------------------------------------------

/// A package manifest, under its path from the repository's root.
#[derive(Debug)]
pub struct ManifestText {
    pub relative: String,
    /// The texts by which it is ordered.
    pub key: Vec<String>,
    pub content: String,
}

/// The model of a package manifest.
pub struct ManifestModel {
    pub relative: Seq<char>,
    pub key: Seq<Seq<char>>,
    pub content: Seq<char>,
}

impl DeepView for ManifestText {
    type V = ManifestModel;

    open spec fn deep_view(&self) -> ManifestModel {
        ManifestModel { relative: self.relative@, key: self.key.deep_view(), content: self.content@ }
    }
}

impl Keyed for ManifestModel {
    open spec fn sort_key(&self) -> Seq<Seq<char>> {
        self.key
    }
}

impl Keyed for ManifestText {
    open spec fn sort_key(&self) -> Seq<Seq<char>> {
        self.key.deep_view()
    }
}

impl SortKey for ManifestText {
    fn key_at_most(&self, other: &Self) -> (r: bool) {
        assert(self.key.deep_view().skip(0) =~= self.key.deep_view());
        assert(other.key.deep_view().skip(0) =~= other.key.deep_view());
        sorting::texts_at_most(&self.key, &other.key, 0)
    }
}

/// A component of a path with its rank in front: the root comes first, a `.`
/// next, a `..` behind it, and the names follow in order.
pub open spec fn ranked(component: Seq<char>) -> Seq<char> {
    if component == "/"@ {
        "0"@
    } else if component == "."@ {
        "1"@
    } else if component == ".."@ {
        "2"@
    } else {
        "3"@ + component
    }
}

fn ranked_component(component: &str) -> (r: String)
    ensures
        r@ == ranked(component@),
{
    if text::same_text(component, "/") {
        text::owned("0")
    } else if text::same_text(component, ".") {
        text::owned("1")
    } else if text::same_text(component, "..") {
        text::owned("2")
    } else {
        text::cat2("3", component)
    }
}

/// The texts by which a manifest is ordered: its place, and where two have the
/// same place, the components of the path.
pub open spec fn manifest_key(path: Seq<char>, repo_path: Seq<char>) -> Seq<Seq<char>> {
    seq![paths::relative_to(path, repo_path)] + paths::components(path).map_values(
        |c: Seq<char>| ranked(c),
    )
}

fn order_key(relative: &str, path: &str, repo_path: &str) -> (r: Vec<String>)
    requires
        relative@ == paths::relative_to(path@, repo_path@),
    ensures
        r.deep_view() == manifest_key(path@, repo_path@),
{
    let components = paths::path_components(path);
    let ghost key = manifest_key(path@, repo_path@);
    let mut out: Vec<String> = Vec::new();
    text::push_deep(&mut out, text::owned(relative));
    let mut i: usize = 0;
    assert(out.deep_view() =~= key.take(1));
    while i < components.len()
        invariant
            i <= components@.len(),
            components.deep_view() == paths::components(path@),
            key == manifest_key(path@, repo_path@),
            out.deep_view() == key.take(i + 1),
        decreases components@.len() - i,
    {
        assert(components.deep_view()[i as int] == components@[i as int]@);
        text::push_deep(&mut out, ranked_component(&components[i]));
        i += 1;
        assert(out.deep_view() =~= key.take(i + 1));
    }
    assert(key.take(i + 1) =~= key);
    out
}

/// A manifest with its place. One that cannot be read counts as empty.
pub open spec fn manifest_model(
    path: Seq<char>,
    content: Option<Seq<char>>,
    repo_path: Seq<char>,
) -> ManifestModel {
    ManifestModel {
        relative: paths::relative_to(path, repo_path),
        key: manifest_key(path, repo_path),
        content: match content {
            Some(c) => c,
            None => Seq::empty(),
        },
    }
}

/// The manifests one after another, each part closed by a zero character.
pub open spec fn combined_manifests(manifests: Seq<ManifestModel>) -> Seq<char>
    decreases manifests.len(),
{
    if manifests.len() == 0 {
        Seq::empty()
    } else {
        combined_manifests(manifests.drop_last()) + manifests.last().relative + "\0"@
            + manifests.last().content + "\0"@
    }
}

/// The manifests of a workspace as they are listed.
pub open spec fn listed_manifests(
    source_paths: Seq<Seq<char>>,
    contents: Seq<Option<Seq<char>>>,
    repo_path: Seq<char>,
) -> Seq<ManifestModel> {
    Seq::new(
        source_paths.len(),
        |i: int| manifest_model(source_paths[i], contents[i], repo_path),
    )
}

/// The manifests of a workspace in the order of their places.
pub open spec fn workspace_manifests(
    source_paths: Seq<Seq<char>>,
    contents: Seq<Option<Seq<char>>>,
    repo_path: Seq<char>,
) -> Seq<ManifestModel> {
    sorting::sorted_by_key(listed_manifests(source_paths, contents, repo_path))
}

fn combine(manifests: &Vec<ManifestText>) -> (r: String)
    ensures
        r@ == combined_manifests(manifests.deep_view()),
{
    let ghost m = manifests.deep_view();
    let mut out = String::new();
    let mut i: usize = 0;
    while i < manifests.len()
        invariant
            i <= manifests@.len(),
            m == manifests.deep_view(),
            out@ == combined_manifests(m.take(i as int)),
        decreases manifests@.len() - i,
    {
        assert(m.take(i + 1).drop_last() =~= m.take(i as int));
        assert(m[i as int] == manifests@[i as int].deep_view());
        out = text::cat5(&out, &manifests[i].relative, "\0", &manifests[i].content, "\0");
        i += 1;
    }
    assert(m.take(i as int) =~= m);
    out
}

/// The hash of every manifest of a workspace: while it stays the same, so does
/// whatever follows from the dependencies. `contents` holds what was read from
/// each source path.
pub fn hash_workspace_package_jsons(
    packages: &Packages,
    contents: &Vec<Option<String>>,
    repo_path: &str,
) -> (r: String)
    requires
        contents@.len() == packages.source_paths@.len(),
    ensures
        r@ == hashing::sha256_hex_of(
            combined_manifests(
                workspace_manifests(
                    packages.source_paths.deep_view(),
                    contents.deep_view(),
                    repo_path@,
                ),
            ),
        ),
{
    let source_paths = &packages.source_paths;
    let ghost p = source_paths.deep_view();
    let ghost c = contents.deep_view();
    let ghost all = listed_manifests(p, c, repo_path@);
    let mut manifests: Vec<ManifestText> = Vec::new();
    assert(manifests.deep_view() =~= all.take(0));
    let mut i: usize = 0;
    while i < source_paths.len()
        invariant
            i <= source_paths@.len(),
            contents@.len() == source_paths@.len(),
            p == source_paths.deep_view(),
            c == contents.deep_view(),
            all == listed_manifests(p, c, repo_path@),
            manifests.deep_view() == all.take(i as int),
        decreases source_paths@.len() - i,
    {
        assert(p[i as int] == source_paths@[i as int]@);
        assert(c[i as int] == contents@[i as int].deep_view());
        let relative = paths::strip_root(&source_paths[i], repo_path);
        let key = order_key(&relative, &source_paths[i], repo_path);
        let content = match &contents[i] {
            Some(content) => content.clone(),
            None => String::new(),
        };
        let ghost before = manifests.deep_view();
        text::push_deep(
            &mut manifests,
            ManifestText { relative, key, content },
        );
        i += 1;
        assert(manifests.deep_view() =~= all.take(i as int));
    }
    assert(all.take(i as int) =~= all);
    let ghost unsorted = manifests@;
    let sorted = sorting::sort_by_key(manifests);
    proof {
        sorting::lemma_sorted_models::<ManifestModel, ManifestText>(unsorted);
        assert(sorting::models(unsorted) =~= all);
        assert(sorted.deep_view() =~= sorting::models(sorted@));
    }
    hashing::hash_file_content(&combine(&sorted))
}

/// What is hashed of a workspace does not depend on the order in which its
/// manifests are listed, where no path is listed twice.
pub proof fn law_manifests_in_any_order(
    paths_a: Seq<Seq<char>>,
    contents_a: Seq<Option<Seq<char>>>,
    paths_b: Seq<Seq<char>>,
    contents_b: Seq<Option<Seq<char>>>,
    repo_path: Seq<char>,
)
    requires
        listed_manifests(paths_a, contents_a, repo_path).to_multiset() == listed_manifests(
            paths_b,
            contents_b,
            repo_path,
        ).to_multiset(),
        sorting::keys_distinct(listed_manifests(paths_a, contents_a, repo_path)),
    ensures
        combined_manifests(workspace_manifests(paths_a, contents_a, repo_path))
            == combined_manifests(workspace_manifests(paths_b, contents_b, repo_path)),
{
    sorting::lemma_sorted_of_permuted(
        listed_manifests(paths_a, contents_a, repo_path),
        listed_manifests(paths_b, contents_b, repo_path),
    );
}

// ---------------------------------------------------------------------------
// Results by file
// ---------------------------------------------------------------------------

/// The results as a map from path to result, a later one over an earlier.
pub open spec fn results_map(results: Seq<FileResult>) -> Map<Seq<char>, FileAnalysisResult>
    decreases results.len(),
{
    if results.len() == 0 {
        Map::empty()
    } else {
        results_map(results.drop_last()).insert(results.last().path@, results.last().result)
    }
}

/// Whether each path has one result.
pub open spec fn paths_distinct(results: Seq<FileResult>) -> bool {
    forall|i: int, j: int|
        0 <= i < j < results.len() ==> (#[trigger] results[i]).path@ != (#[trigger] results[j]).path@
}

proof fn lemma_replace_result(results: Seq<FileResult>, i: int, r: FileResult)
    requires
        paths_distinct(results),
        0 <= i < results.len(),
        results[i].path@ == r.path@,
    ensures
        results_map(results.update(i, r)) == results_map(results).insert(r.path@, r.result),
    decreases results.len(),
{
    let after = results.update(i, r);
    let front = results.drop_last();
    if i == results.len() - 1 {
        assert(after.drop_last() =~= front);
    } else {
        assert(after.drop_last() =~= front.update(i, r));
        assert(after.last() == results.last());
        assert(front[i] == results[i]);
        assert(paths_distinct(front)) by {
            assert forall|a: int, b: int| 0 <= a < b < front.len() implies (
            #[trigger] front[a]).path@ != (#[trigger] front[b]).path@ by {
                assert(results[a].path@ != results[b].path@);
            }
        }
        lemma_replace_result(front, i, r);
        assert(results[i].path@ != results[results.len() - 1].path@);
    }
    assert(results_map(after) =~= results_map(results).insert(r.path@, r.result));
}

fn put_result(results: &mut Vec<FileResult>, r: FileResult)
    requires
        paths_distinct(old(results)@),
    ensures
        paths_distinct(final(results)@),
        results_map(final(results)@) == results_map(old(results)@).insert(r.path@, r.result),
{
    let ghost before = results@;
    let mut i: usize = 0;
    while i < results.len()
        invariant
            i <= results@.len(),
            results@ == before,
            before == old(results)@,
            paths_distinct(before),
            forall|k: int| 0 <= k < i ==> (#[trigger] before[k]).path@ != r.path@,
        decreases results@.len() - i,
    {
        if text::same_text(&results[i].path, &r.path) {
            proof {
                lemma_replace_result(before, i as int, r);
            }
            results.set(i, r);
            assert forall|a: int, b: int| 0 <= a < b < results@.len() implies (
            #[trigger] results@[a]).path@ != (#[trigger] results@[b]).path@ by {
                assert(before[a].path@ != before[b].path@);
            }
            return ;
        }
        i += 1;
    }
    results.push(r);
    proof {
        assert(results@.drop_last() =~= before);
        assert forall|a: int, b: int| 0 <= a < b < results@.len() implies (
        #[trigger] results@[a]).path@ != (#[trigger] results@[b]).path@ by {
            assert(before[a].path@ == results@[a].path@);
            if b < before.len() {
                assert(before[b].path@ == results@[b].path@);
            }
        }
    }
}

/// A path as seen from the repository's root, whose prefix is given.
pub open spec fn relative_key(path: Seq<char>, prefix: Seq<char>) -> Seq<char> {
    match text::strip_prefix_spec(path, prefix) {
        Some(rest) => rest,
        None => match text::strip_prefix_spec(path, "./"@) {
            Some(rest) => rest,
            None => path,
        },
    }
}

/// The repository's root with a slash behind it.
pub open spec fn root_prefix(repo_path: Seq<char>) -> Seq<char> {
    if repo_path.len() > 0 && repo_path.last() == '/' {
        repo_path
    } else {
        repo_path + "/"@
    }
}

fn make_relative_key(path: &str, prefix: &str) -> (r: String)
    ensures
        r@ == relative_key(path@, prefix@),
{
    match text::strip_prefix(path, prefix) {
        Some(rest) => rest,
        None => match text::strip_prefix(path, "./") {
            Some(rest) => rest,
            None => text::owned(path),
        },
    }
}

/// A map with results put in under their relative paths.
pub open spec fn with_results(
    map: Map<Seq<char>, FileAnalysisResult>,
    results: Seq<FileResult>,
    prefix: Seq<char>,
) -> Map<Seq<char>, FileAnalysisResult>
    decreases results.len(),
{
    if results.len() == 0 {
        map
    } else {
        with_results(map, results.drop_last(), prefix).insert(
            relative_key(results.last().path@, prefix),
            results.last().result,
        )
    }
}

fn put_results(into: &mut Vec<FileResult>, results: Vec<FileResult>, repo_path: &str)
    requires
        paths_distinct(old(into)@),
    ensures
        paths_distinct(final(into)@),
        results_map(final(into)@) == with_results(
            results_map(old(into)@),
            results@,
            root_prefix(repo_path@),
        ),
{
    let prefix = if text::ends_with_char(repo_path, '/') {
        text::owned(repo_path)
    } else {
        text::cat2(repo_path, "/")
    };
    let ghost all = results@;
    let ghost start = results_map(into@);
    assert(all.take(0) =~= Seq::empty());
    for r in it: results
        invariant
            it.seq() == all,
            prefix@ == root_prefix(repo_path@),
            paths_distinct(into@),
            results_map(into@) == with_results(start, all.take(it.index()), prefix@),
    {
        assert(all.take(it.index() + 1).drop_last() =~= all.take(it.index()));
        assert(all.take(it.index() + 1).last() == all[it.index()]);
        let path = make_relative_key(&r.path, &prefix);
        put_result(into, FileResult { path, result: r.result });
    }
    assert(all.take(all.len() as int) =~= all);
}

/// Puts the results under the paths from the repository's root, so that they
/// are found again in the next run.
pub fn normalize_file_results_keys(file_results: Vec<FileResult>, repo_path: &str) -> (r: Vec<
    FileResult,
>)
    ensures
        paths_distinct(r@),
        results_map(r@) == with_results(Map::empty(), file_results@, root_prefix(repo_path@)),
{
    let mut out: Vec<FileResult> = Vec::new();
    put_results(&mut out, file_results, repo_path);
    out
}

// ---------------------------------------------------------------------------
// What is analysed anew, and the merge
// ---------------------------------------------------------------------------

/// Whether there is a result for the path.
pub open spec fn has_result(results: Seq<FileResult>, path: Seq<char>) -> bool {
    exists|i: int| 0 <= i < results.len() && (#[trigger] results[i]).path@ == path
}

/// Whether a file is analysed anew: it has changed, or has no cached result.
pub open spec fn needs_analysis(
    file: Seq<char>,
    changed: Seq<Seq<char>>,
    cached: Seq<FileResult>,
    repo_path: Seq<char>,
) -> bool {
    let key = relative_key(file, repo_path + "/"@);
    text::among(key, changed) || !has_result(cached, key)
}

/// The files that are analysed anew.
pub open spec fn to_analyze(
    files: Seq<Seq<char>>,
    changed: Seq<Seq<char>>,
    cached: Seq<FileResult>,
    repo_path: Seq<char>,
) -> Seq<Seq<char>>
    decreases files.len(),
{
    if files.len() == 0 {
        Seq::empty()
    } else {
        let before = to_analyze(files.drop_last(), changed, cached, repo_path);
        if needs_analysis(files.last(), changed, cached, repo_path) {
            before.push(files.last())
        } else {
            before
        }
    }
}

fn find_result(results: &Vec<FileResult>, path: &str) -> (r: bool)
    ensures
        r == has_result(results@, path@),
{
    let mut i: usize = 0;
    while i < results.len()
        invariant
            i <= results@.len(),
            forall|k: int| 0 <= k < i ==> (#[trigger] results@[k]).path@ != path@,
        decreases results@.len() - i,
    {
        if text::same_text(&results[i].path, path) {
            return true;
        }
        i += 1;
    }
    false
}

/// The files that are analysed anew.
pub fn files_to_analyze(
    files: &Vec<String>,
    changed: &Vec<String>,
    cached: &Vec<FileResult>,
    repo_path: &str,
) -> (r: Vec<String>)
    ensures
        r.deep_view() == to_analyze(files.deep_view(), changed.deep_view(), cached@, repo_path@),
{
    let prefix = text::cat2(repo_path, "/");
    let ghost f = files.deep_view();
    let mut out: Vec<String> = Vec::new();
    assert(out.deep_view() =~= Seq::empty());
    let mut i: usize = 0;
    while i < files.len()
        invariant
            i <= files@.len(),
            f == files.deep_view(),
            prefix@ == repo_path@ + "/"@,
            out.deep_view() == to_analyze(
                f.take(i as int),
                changed.deep_view(),
                cached@,
                repo_path@,
            ),
        decreases files@.len() - i,
    {
        assert(f.take(i + 1).drop_last() =~= f.take(i as int));
        assert(f[i as int] == files@[i as int]@);
        let key = make_relative_key(&files[i], &prefix);
        if text::is_among(&key, changed) || !find_result(cached, &key) {
            text::push_deep(&mut out, files[i].clone());
        }
        i += 1;
    }
    assert(f.take(i as int) =~= f);
    out
}

/// How a service is analysed.
#[derive(Debug)]
pub enum AnalysisPlan {
    /// All its files are analysed.
    Full,
    /// Only some files are analysed; the other results are those of the cache.
    Incremental { to_analyze: Vec<String> },
}

/// How a service is analysed: incrementally if there is a cache that can be
/// used and the changes since are known. `changed` are the changed files, as
/// far as they could be found out.
pub fn plan_analysis(
    previous: Option<&CloudRepoData>,
    changed: &Option<Vec<String>>,
    files: &Vec<String>,
    repo_path: &str,
) -> (r: AnalysisPlan)
    ensures
        match (previous, *changed) {
            (Some(data), Some(c)) => if has_usable_cache(*data) {
                r matches AnalysisPlan::Incremental { to_analyze: t } && t.deep_view()
                    == to_analyze(
                    files.deep_view(),
                    c.deep_view(),
                    data.file_results->0@,
                    repo_path@,
                )
            } else {
                r is Full
            },
            _ => r is Full,
        },
{
    if !can_use_incremental(previous) {
        return AnalysisPlan::Full;
    }
    match (previous, changed) {
        (Some(data), Some(changed)) => match &data.file_results {
            Some(cached) => AnalysisPlan::Incremental {
                to_analyze: files_to_analyze(files, changed, cached, repo_path),
            },
            None => AnalysisPlan::Full,
        },
        _ => AnalysisPlan::Full,
    }
}

/// The paths of the files that are there, from the repository's root.
pub open spec fn current_keys(files: Seq<Seq<char>>, repo_path: Seq<char>) -> Seq<Seq<char>> {
    files.map_values(|file: Seq<char>| relative_key(file, repo_path + "/"@))
}

/// The cached results of the files that are there and have not changed.
pub open spec fn kept_results(
    cached: Seq<FileResult>,
    current: Seq<Seq<char>>,
    changed: Seq<Seq<char>>,
) -> Map<Seq<char>, FileAnalysisResult>
    decreases cached.len(),
{
    if cached.len() == 0 {
        Map::empty()
    } else {
        let before = kept_results(cached.drop_last(), current, changed);
        let last = cached.last();
        if text::among(last.path@, current) && !text::among(last.path@, changed) {
            before.insert(last.path@, last.result)
        } else {
            before
        }
    }
}

/// The results of this run: the cached ones that are kept, and over them the
/// new ones.
pub open spec fn merged_results(
    cached: Seq<FileResult>,
    new: Seq<FileResult>,
    files: Seq<Seq<char>>,
    changed: Seq<Seq<char>>,
    repo_path: Seq<char>,
) -> Map<Seq<char>, FileAnalysisResult> {
    with_results(
        kept_results(cached, current_keys(files, repo_path), changed),
        new,
        root_prefix(repo_path),
    )
}

/// The results of this run: the cached ones of files that are still there and
/// have not changed, and over them the new ones.
pub fn merge_file_results(
    cached: Vec<FileResult>,
    new: Vec<FileResult>,
    files: &Vec<String>,
    changed: &Vec<String>,
    repo_path: &str,
) -> (r: Vec<FileResult>)
    ensures
        paths_distinct(r@),
        results_map(r@) == merged_results(
            cached@,
            new@,
            files.deep_view(),
            changed.deep_view(),
            repo_path@,
        ),
{
    let prefix = text::cat2(repo_path, "/");
    let ghost f = files.deep_view();
    let ghost keys = current_keys(f, repo_path@);
    let mut current: Vec<String> = Vec::new();
    assert(current.deep_view() =~= keys.take(0));
    let mut i: usize = 0;
    while i < files.len()
        invariant
            i <= files@.len(),
            f == files.deep_view(),
            keys == current_keys(f, repo_path@),
            prefix@ == repo_path@ + "/"@,
            current.deep_view() == keys.take(i as int),
        decreases files@.len() - i,
    {
        assert(f[i as int] == files@[i as int]@);
        text::push_deep(&mut current, make_relative_key(&files[i], &prefix));
        i += 1;
        assert(current.deep_view() =~= keys.take(i as int));
    }
    assert(keys.take(i as int) =~= keys);
    let ghost all = cached@;
    let mut out: Vec<FileResult> = Vec::new();
    assert(all.take(0) =~= Seq::empty());
    for r in it: cached
        invariant
            it.seq() == all,
            current.deep_view() == keys,
            paths_distinct(out@),
            results_map(out@) == kept_results(all.take(it.index()), keys, changed.deep_view()),
    {
        assert(all.take(it.index() + 1).drop_last() =~= all.take(it.index()));
        assert(all.take(it.index() + 1).last() == all[it.index()]);
        if text::is_among(&r.path, &current) && !text::is_among(&r.path, changed) {
            put_result(&mut out, r);
        }
    }
    assert(all.take(all.len() as int) =~= all);
    put_results(&mut out, new, repo_path);
    out
}

pub proof fn lemma_kept_results(
    cached: Seq<FileResult>,
    current: Seq<Seq<char>>,
    changed: Seq<Seq<char>>,
    key: Seq<char>,
)
    ensures
        kept_results(cached, current, changed).contains_key(key) == (text::among(key, current)
            && !text::among(key, changed) && results_map(cached).contains_key(key)),
        kept_results(cached, current, changed).contains_key(key) ==> kept_results(
            cached,
            current,
            changed,
        )[key] == results_map(cached)[key],
        results_map(cached).contains_key(key) == has_result(cached, key),
    decreases cached.len(),
{
    if cached.len() > 0 {
        let front = cached.drop_last();
        lemma_kept_results(front, current, changed, key);
        if has_result(front, key) {
            let i = choose|i: int| 0 <= i < front.len() && (#[trigger] front[i]).path@ == key;
            assert(cached[i].path@ == key);
        }
        if has_result(cached, key) {
            let i = choose|i: int| 0 <= i < cached.len() && (#[trigger] cached[i]).path@ == key;
            if i < front.len() {
                assert(front[i].path@ == key);
            }
        }
        if cached.last().path@ == key {
            assert(cached[cached.len() - 1].path@ == key);
        }
    }
}

proof fn lemma_with_results(
    map: Map<Seq<char>, FileAnalysisResult>,
    results: Seq<FileResult>,
    prefix: Seq<char>,
    key: Seq<char>,
)
    requires
        forall|i: int|
            0 <= i < results.len() ==> relative_key((#[trigger] results[i]).path@, prefix) != key,
    ensures
        with_results(map, results, prefix).contains_key(key) == map.contains_key(key),
        map.contains_key(key) ==> with_results(map, results, prefix)[key] == map[key],
    decreases results.len(),
{
    if results.len() > 0 {
        assert(relative_key(results[results.len() - 1].path@, prefix) != key);
        assert forall|i: int| 0 <= i < results.drop_last().len() implies relative_key(
            (#[trigger] results.drop_last()[i]).path@,
            prefix,
        ) != key by {
            assert(relative_key(results[i].path@, prefix) != key);
        }
        lemma_with_results(map, results.drop_last(), prefix, key);
    }
}

/// A path without a new result keeps its cached result if the file is still
/// there and has not changed, and has none otherwise: what was deleted is gone,
/// and nothing stale stays.
pub proof fn law_cached_result_kept_iff_current(
    cached: Seq<FileResult>,
    new: Seq<FileResult>,
    files: Seq<Seq<char>>,
    changed: Seq<Seq<char>>,
    repo_path: Seq<char>,
    key: Seq<char>,
)
    requires
        forall|i: int|
            0 <= i < new.len() ==> relative_key(
                (#[trigger] new[i]).path@,
                root_prefix(repo_path),
            ) != key,
    ensures
        ({
            let merged = merged_results(cached, new, files, changed, repo_path);
            &&& merged.contains_key(key) == (text::among(key, current_keys(files, repo_path))
                && !text::among(key, changed) && has_result(cached, key))
            &&& merged.contains_key(key) ==> merged[key] == results_map(cached)[key]
        }),
{
    let current = current_keys(files, repo_path);
    lemma_kept_results(cached, current, changed, key);
    lemma_with_results(
        kept_results(cached, current, changed),
        new,
        root_prefix(repo_path),
        key,
    );
}

/// A file that is there and is not analysed anew has its cached result.
pub proof fn law_unchanged_files_are_covered(
    cached: Seq<FileResult>,
    files: Seq<Seq<char>>,
    changed: Seq<Seq<char>>,
    repo_path: Seq<char>,
    i: int,
)
    requires
        0 <= i < files.len(),
        !needs_analysis(files[i], changed, cached, repo_path),
    ensures
        kept_results(cached, current_keys(files, repo_path), changed).contains_key(
            relative_key(files[i], repo_path + "/"@),
        ),
{
    let key = relative_key(files[i], repo_path + "/"@);
    let current = current_keys(files, repo_path);
    assert(current[i] == key);
    lemma_kept_results(cached, current, changed, key);
}

// ---------------------------------------------------------------------------
// What is not cached
// ---------------------------------------------------------------------------

/// Whether an endpoint lost what only diagnosis needs, and nothing else.
pub open spec fn endpoint_stripped(before: EndpointResult, after: EndpointResult) -> bool {
    &&& after.candidate_id@.len() == 0
    &&& after.pattern_matched@.len() == 0
    &&& after.payload_expression_text is None
    &&& after == (EndpointResult {
        candidate_id: after.candidate_id,
        pattern_matched: after.pattern_matched,
        payload_expression_text: after.payload_expression_text,
        ..before
    })
}

/// Whether a data call lost what only diagnosis needs, and nothing else.
pub open spec fn data_call_stripped(before: DataCallResult, after: DataCallResult) -> bool {
    &&& after.candidate_id@.len() == 0
    &&& after.pattern_matched@.len() == 0
    &&& after.call_expression_text is None
    &&& after.payload_expression_text is None
    &&& after == (DataCallResult {
        candidate_id: after.candidate_id,
        pattern_matched: after.pattern_matched,
        call_expression_text: after.call_expression_text,
        payload_expression_text: after.payload_expression_text,
        ..before
    })
}

/// Whether a mount lost what only diagnosis needs, and nothing else.
pub open spec fn mount_stripped(before: MountResult, after: MountResult) -> bool {
    &&& after.pattern_matched@.len() == 0
    &&& after == (MountResult { pattern_matched: after.pattern_matched, ..before })
}

/// Whether a result lost what only diagnosis needs, and nothing else.
pub open spec fn result_stripped(before: FileAnalysisResult, after: FileAnalysisResult) -> bool {
    &&& after.endpoints@.len() == before.endpoints@.len()
    &&& forall|i: int|
        0 <= i < before.endpoints@.len() ==> endpoint_stripped(
            #[trigger] before.endpoints@[i],
            after.endpoints@[i],
        )
    &&& after.data_calls@.len() == before.data_calls@.len()
    &&& forall|i: int|
        0 <= i < before.data_calls@.len() ==> data_call_stripped(
            #[trigger] before.data_calls@[i],
            after.data_calls@[i],
        )
    &&& after.mounts@.len() == before.mounts@.len()
    &&& forall|i: int|
        0 <= i < before.mounts@.len() ==> mount_stripped(
            #[trigger] before.mounts@[i],
            after.mounts@[i],
        )
    &&& after.graphql_operations == before.graphql_operations
    &&& after.graphql_consumer_locates == before.graphql_consumer_locates
    &&& after.pubsub_operations == before.pubsub_operations
}

fn strip_endpoints(endpoints: &mut Vec<EndpointResult>)
    ensures
        final(endpoints)@.len() == old(endpoints)@.len(),
        forall|i: int|
            0 <= i < old(endpoints)@.len() ==> endpoint_stripped(
                #[trigger] old(endpoints)@[i],
                final(endpoints)@[i],
            ),
{
    let ghost before = endpoints@;
    let mut i: usize = 0;
    while i < endpoints.len()
        invariant
            i <= endpoints@.len(),
            before == old(endpoints)@,
            endpoints@.len() == before.len(),
            forall|k: int| 0 <= k < i ==> endpoint_stripped(#[trigger] before[k], endpoints@[k]),
            forall|k: int| i <= k < before.len() ==> #[trigger] endpoints@[k] == before[k],
        decreases endpoints@.len() - i,
    {
        let endpoint = &mut endpoints[i];
        endpoint.candidate_id = String::new();
        endpoint.pattern_matched = String::new();
        endpoint.payload_expression_text = None;
        i += 1;
    }
}

fn strip_data_calls(data_calls: &mut Vec<DataCallResult>)
    ensures
        final(data_calls)@.len() == old(data_calls)@.len(),
        forall|i: int|
            0 <= i < old(data_calls)@.len() ==> data_call_stripped(
                #[trigger] old(data_calls)@[i],
                final(data_calls)@[i],
            ),
{
    let ghost before = data_calls@;
    let mut i: usize = 0;
    while i < data_calls.len()
        invariant
            i <= data_calls@.len(),
            before == old(data_calls)@,
            data_calls@.len() == before.len(),
            forall|k: int| 0 <= k < i ==> data_call_stripped(#[trigger] before[k], data_calls@[k]),
            forall|k: int| i <= k < before.len() ==> #[trigger] data_calls@[k] == before[k],
        decreases data_calls@.len() - i,
    {
        let data_call = &mut data_calls[i];
        data_call.candidate_id = String::new();
        data_call.pattern_matched = String::new();
        data_call.call_expression_text = None;
        data_call.payload_expression_text = None;
        i += 1;
    }
}

fn strip_mounts(mounts: &mut Vec<MountResult>)
    ensures
        final(mounts)@.len() == old(mounts)@.len(),
        forall|i: int|
            0 <= i < old(mounts)@.len() ==> mount_stripped(
                #[trigger] old(mounts)@[i],
                final(mounts)@[i],
            ),
{
    let ghost before = mounts@;
    let mut i: usize = 0;
    while i < mounts.len()
        invariant
            i <= mounts@.len(),
            before == old(mounts)@,
            mounts@.len() == before.len(),
            forall|k: int| 0 <= k < i ==> mount_stripped(#[trigger] before[k], mounts@[k]),
            forall|k: int| i <= k < before.len() ==> #[trigger] mounts@[k] == before[k],
        decreases mounts@.len() - i,
    {
        let mount = &mut mounts[i];
        mount.pattern_matched = String::new();
        i += 1;
    }
}

/// Takes out of the results what only diagnosis needs, before they are cached.
/// The text of a response expression stays: it is the only exact way back to
/// what an endpoint returns.
pub fn strip_diagnostic_fields(file_results: &mut Vec<FileResult>)
    ensures
        results_stripped(old(file_results)@, final(file_results)@),
{
    let ghost before = file_results@;
    let mut i: usize = 0;
    while i < file_results.len()
        invariant
            i <= file_results@.len(),
            before == old(file_results)@,
            file_results@.len() == before.len(),
            forall|k: int|
                #![trigger before[k]]
                0 <= k < i ==> file_results@[k].path == before[k].path && result_stripped(
                    before[k].result,
                    file_results@[k].result,
                ),
            forall|k: int| i <= k < before.len() ==> #[trigger] file_results@[k] == before[k],
        decreases file_results@.len() - i,
    {
        let r = &mut file_results[i];
        strip_endpoints(&mut r.result.endpoints);
        strip_data_calls(&mut r.result.data_calls);
        strip_mounts(&mut r.result.mounts);
        i += 1;
    }
}

/// What is cached of an endpoint still says what it returns and where: only
/// what diagnosis needs is gone.
pub proof fn law_response_expression_survives(
    before: FileAnalysisResult,
    after: FileAnalysisResult,
    i: int,
)
    requires
        result_stripped(before, after),
        0 <= i < before.endpoints@.len(),
    ensures
        after.endpoints@[i].response_expression_text
            == before.endpoints@[i].response_expression_text,
        after.endpoints@[i].response_expression_line
            == before.endpoints@[i].response_expression_line,
        after.endpoints@[i].emission_style == before.endpoints@[i].emission_style,
        after.endpoints@[i].primary_type_symbol == before.endpoints@[i].primary_type_symbol,
{
    assert(endpoint_stripped(before.endpoints@[i], after.endpoints@[i]));
}

} // verus!
