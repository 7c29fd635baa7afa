//! What holds of the package in which types are checked.

use vstd::prelude::*;

use crate::cloud_storage::{CloudRepoData, ManifestRole, TypeManifestEntry};
use crate::packages::{Dependency, PackageJson, Packages};
use crate::{text, text_laws, type_check};

verus! {

// ---------------------------------------------------------------------------
// Specifications of packages
// ---------------------------------------------------------------------------

proof fn lemma_last_at(name: Seq<char>, range: Seq<char>)
    requires
        !range.contains('@'),
    ensures
        text::last_index(name + "@"@ + range, '@') == name.len(),
{
    reveal_strlit("@");
    let s = name + "@"@ + range;
    text::lemma_last_index(s, '@');
    let at = text::last_index(s, '@');
    assert(s[name.len() as int] == '@');
    if at > name.len() {
        assert(range[at - name.len() - 1] == s[at]);
        assert(range.contains(range[at - name.len() - 1]));
    }
}

/// `name@range` is the name and the range, also where the name is scoped.
pub proof fn law_name_and_range(name: Seq<char>, range: Seq<char>)
    requires
        name.len() > 0,
        !range.contains('@'),
    ensures
        type_check::bare_name_spec(name + "@"@ + range) == name,
        type_check::range_spec(name + "@"@ + range) == range,
{
    reveal_strlit("@");
    lemma_last_at(name, range);
    let s = name + "@"@ + range;
    assert(s.take(name.len() as int) =~= name);
    assert(s.skip(name.len() as int + 1) =~= range);
}

/// A name without a range stands for itself, scoped or not.
pub proof fn law_name_alone(name: Seq<char>)
    requires
        !name.contains('@'),
    ensures
        type_check::bare_name_spec(name) == name,
        type_check::bare_name_spec("@"@ + name) == "@"@ + name,
{
    reveal_strlit("@");
    text::lemma_last_index(name, '@');
    if text::last_index(name, '@') > 0 {
        assert(name.contains(name[text::last_index(name, '@')]));
    }
    let none = Seq::<char>::empty();
    assert("@"@ + name =~= none + "@"@ + name);
    lemma_last_at(none, name);
}

/// Whether a text begins with another.
pub open spec fn begins(s: Seq<char>, p: Seq<char>) -> bool {
    s.len() >= p.len() && s.take(p.len() as int) == p
}

/// Whether a version names a place that is not the registry.
pub open spec fn names_a_place(version: Seq<char>) -> bool {
    ||| begins(version, "file:"@)
    ||| begins(version, "link:"@)
    ||| begins(version, "portal:"@)
    ||| begins(version, "patch:"@)
    ||| begins(version, "workspace:"@)
    ||| begins(version, "catalog:"@)
    ||| begins(version, "git:"@)
    ||| begins(version, "git+"@)
    ||| begins(version, "github:"@)
    ||| begins(version, "ssh:"@)
    ||| begins(version, "http:"@)
    ||| begins(version, "https:"@)
}

proof fn lemma_begins(s: Seq<char>, p: Seq<char>)
    ensures
        p.is_prefix_of(s) == begins(s, p),
{
    if s.len() >= p.len() {
        assert(s.take(p.len() as int) =~= s.subrange(0, p.len() as int));
    }
}

/// Just these protocols are not the registry's.
pub proof fn law_places(version: Seq<char>)
    ensures
        type_check::non_registry(version) == names_a_place(version),
{
    lemma_begins(version, "file:"@);
    lemma_begins(version, "link:"@);
    lemma_begins(version, "portal:"@);
    lemma_begins(version, "patch:"@);
    lemma_begins(version, "workspace:"@);
    lemma_begins(version, "catalog:"@);
    lemma_begins(version, "git:"@);
    lemma_begins(version, "git+"@);
    lemma_begins(version, "github:"@);
    lemma_begins(version, "ssh:"@);
    lemma_begins(version, "http:"@);
    lemma_begins(version, "https:"@);
}

/// Whether a version can be asked of the registry: it has a digit and names no
/// other place.
pub open spec fn is_askable(version: Seq<char>) -> bool {
    !names_a_place(version) && exists|i: int|
        0 <= i < version.len() && '0' <= #[trigger] version[i] <= '9'
}

proof fn lemma_digit(s: Seq<char>)
    ensures
        type_check::has_digit(s) == (exists|i: int|
            0 <= i < s.len() && '0' <= #[trigger] s[i] <= '9'),
{
    if type_check::has_digit(s) {
        let i = choose|i: int| 0 <= i < s.len() && '0' <= #[trigger] s[i] && s[i] <= '9';
        assert('0' <= s[i] <= '9');
    }
}

/// Whether a resolution is an `npm:` alias of the name.
pub open spec fn is_alias_of(resolution: Dependency, name: Seq<char>) -> bool {
    begins(resolution.version@, "npm:"@) && type_check::bare_name_spec(resolution.name@) == name
}

/// Whether one of the manifests has an `npm:` alias of the name.
pub open spec fn has_alias(manifests: Seq<PackageJson>, name: Seq<char>) -> bool {
    exists|i: int| 0 <= i < manifests.len() && alias_at(#[trigger] manifests[i], name)
}

/// Whether a manifest has an `npm:` alias of the name.
pub open spec fn alias_at(manifest: PackageJson, name: Seq<char>) -> bool {
    exists|j: int|
        0 <= j < manifest.resolutions@.len() && is_alias_of(
            #[trigger] manifest.resolutions@[j],
            name,
        )
}

proof fn lemma_alias_in(resolutions: Seq<Dependency>, name: Seq<char>)
    ensures
        match type_check::alias_in(resolutions, name) {
            Some(d) => exists|j: int|
                0 <= j < resolutions.len() && is_alias_of(#[trigger] resolutions[j], name)
                    && resolutions[j] == d,
            None => forall|j: int|
                0 <= j < resolutions.len() ==> !is_alias_of(#[trigger] resolutions[j], name),
        },
    decreases resolutions.len(),
{
    if resolutions.len() > 0 {
        let front = resolutions.drop_last();
        let n = resolutions.len() - 1;
        lemma_alias_in(front, name);
        lemma_begins(resolutions.last().version@, "npm:"@);
        if is_alias_of(resolutions[n], name) {
            assert(resolutions[n] == resolutions.last());
        } else {
            match type_check::alias_in(front, name) {
                Some(d) => {
                    let j = choose|j: int|
                        0 <= j < front.len() && is_alias_of(#[trigger] front[j], name) && front[j]
                            == d;
                    assert(resolutions[j] == front[j]);
                },
                None => {
                    assert forall|j: int| 0 <= j < resolutions.len() implies !is_alias_of(
                        #[trigger] resolutions[j],
                        name,
                    ) by {
                        if j < front.len() {
                            assert(front[j] == resolutions[j]);
                        }
                    }
                },
            }
        }
    }
}

proof fn lemma_resolution_alias(manifests: Seq<PackageJson>, name: Seq<char>)
    ensures
        type_check::resolution_alias(manifests, name) is Some <==> has_alias(manifests, name),
        type_check::resolution_alias(manifests, name) matches Some(d) ==> is_alias_of(d, name),
    decreases manifests.len(),
{
    if manifests.len() > 0 {
        let front = manifests.drop_last();
        let last = manifests.last();
        lemma_alias_in(last.resolutions@, name);
        lemma_resolution_alias(front, name);
        assert(manifests[manifests.len() - 1] == last);
        if has_alias(front, name) {
            let i = choose|i: int| 0 <= i < front.len() && alias_at(#[trigger] front[i], name);
            assert(manifests[i] == front[i]);
        }
        if has_alias(manifests, name) {
            let i = choose|i: int|
                0 <= i < manifests.len() && alias_at(#[trigger] manifests[i], name);
            if i < front.len() {
                assert(front[i] == manifests[i]);
            }
        }
        if let Some(d) = type_check::alias_in(last.resolutions@, name) {
            let j = choose|j: int|
                0 <= j < last.resolutions@.len() && is_alias_of(
                    #[trigger] last.resolutions@[j],
                    name,
                ) && last.resolutions@[j] == d;
            assert(alias_at(last, name));
        }
    }
}

/// A dependency of the registry that no resolution renames is installed with its
/// own version, without the white space round it; an internal one, and one whose
/// version cannot be asked for, is left out.
pub proof fn law_own_version(
    dependency: Dependency,
    a: Seq<char>,
    version: Seq<char>,
    b: Seq<char>,
    manifests: Seq<PackageJson>,
    is_internal: bool,
)
    requires
        text_laws::is_blank(a),
        text_laws::is_tight(version),
        text_laws::is_blank(b),
        dependency.version@ == a + version + b,
        version != "undefined"@,
        !has_alias(manifests, dependency.name@),
    ensures
        type_check::installed_version(dependency, manifests, is_internal) == if is_askable(version)
            && !is_internal {
            Some(version)
        } else {
            None
        },
{
    text_laws::law_trim(a, version, b);
    law_places(version);
    lemma_digit(version);
    lemma_resolution_alias(manifests, dependency.name@);
}

/// A dependency that a resolution renames is installed as the resolution says, or
/// not at all where the resolution cannot be asked for; never with its own
/// version.
pub proof fn law_renamed_version(
    dependency: Dependency,
    manifests: Seq<PackageJson>,
    is_internal: bool,
)
    requires
        has_alias(manifests, dependency.name@),
    ensures
        type_check::installed_version(dependency, manifests, is_internal) matches Some(v) ==> {
            &&& !is_internal
            &&& begins(v, "npm:"@)
            &&& is_askable(type_check::range_spec(v.skip(4)))
            &&& exists|d: Dependency| #[trigger] is_alias_of(d, dependency.name@) && d.version@ == v
        },
{
    lemma_resolution_alias(manifests, dependency.name@);
    let alias = type_check::resolution_alias(manifests, dependency.name@)->0;
    let range = type_check::range_spec(alias.version@.skip(4));
    law_places(range);
    lemma_digit(range);
    assert(is_alias_of(alias, dependency.name@));
}

/// Each dependency is installed by itself: with its version where it has one, in
/// the order of the manifest.
pub proof fn law_installed_one_by_one(
    dependencies: Seq<Dependency>,
    d: Dependency,
    own: Packages,
    corpus_internal: Seq<Seq<char>>,
)
    ensures
        ({
            let is_internal = crate::packages::declares(own, d.name@) || corpus_internal.contains(
                d.name@,
            );
            type_check::installed(dependencies.push(d), own, corpus_internal)
                == match type_check::installed_version(d, own.package_jsons@, is_internal) {
                Some(version) => type_check::installed(dependencies, own, corpus_internal).push(
                    (d.name@, version),
                ),
                None => type_check::installed(dependencies, own, corpus_internal),
            }
        }),
{
    assert(dependencies.push(d).drop_last() =~= dependencies);
    assert(text::among(d.name@, corpus_internal) == corpus_internal.contains(d.name@)) by {
        if corpus_internal.contains(d.name@) {
            let i = choose|i: int|
                0 <= i < corpus_internal.len() && corpus_internal[i] == d.name@;
            assert(corpus_internal[i] == d.name@);
        }
    }
}

// ---------------------------------------------------------------------------
// Failed installations
// ---------------------------------------------------------------------------

proof fn lemma_punctuation(name: Seq<char>, marks: Seq<char>)
    requires
        name.len() == 0 || (name[name.len() - 1] != '.' && name[name.len() - 1] != ','),
        forall|i: int| 0 <= i < marks.len() ==> (#[trigger] marks[i]) == '.' || marks[i] == ',',
    ensures
        type_check::without_punctuation(name + marks) == name,
    decreases marks.len(),
{
    if marks.len() == 0 {
        assert(name + marks =~= name);
    } else {
        assert((name + marks).last() == marks[marks.len() - 1]);
        assert((name + marks).drop_last() =~= name + marks.drop_last());
        assert forall|i: int| 0 <= i < marks.drop_last().len() implies (
        #[trigger] marks.drop_last()[i]) == '.' || marks.drop_last()[i] == ',' by {
            assert(marks[i] == marks.drop_last()[i]);
        }
        lemma_punctuation(name, marks.drop_last());
    }
}

/// A specification that is blamed names its package, whatever full stops and
/// commas follow it.
pub proof fn law_blamed_name(
    specs: Seq<Option<Seq<char>>>,
    name: Seq<char>,
    range: Seq<char>,
    marks: Seq<char>,
)
    requires
        name.len() > 0,
        range.len() > 0,
        !range.contains('@'),
        range[range.len() - 1] != '.' && range[range.len() - 1] != ',',
        forall|i: int| 0 <= i < marks.len() ==> (#[trigger] marks[i]) == '.' || marks[i] == ',',
    ensures
        type_check::blamed_names(specs.push(Some(name + "@"@ + range + marks))).contains(name),
        forall|other: Seq<char>|
            other != name ==> (type_check::blamed_names(
                specs.push(Some(name + "@"@ + range + marks)),
            ).contains(other) <==> #[trigger] type_check::blamed_names(specs).contains(other)),
{
    let spec_text = name + "@"@ + range + marks;
    let whole = name + "@"@ + range;
    lemma_punctuation(whole, marks);
    law_name_and_range(name, range);
    let before = type_check::blamed_names(specs);
    let all = specs.push(Some(spec_text));
    let after = type_check::blamed_names(all);
    assert(all.drop_last() =~= specs);
    assert(all.last() == Some(spec_text));
    if text::among(name, before) {
        let i = choose|i: int| 0 <= i < before.len() && #[trigger] before[i] == name;
        assert(before.contains(name));
    } else {
        assert(after[before.len() as int] == name);
        assert forall|other: Seq<char>| other != name implies (after.contains(other)
            <==> #[trigger] before.contains(other)) by {
            if after.contains(other) {
                let i = choose|i: int| 0 <= i < after.len() && after[i] == other;
                assert(before[i] == other);
            }
            if before.contains(other) {
                let i = choose|i: int| 0 <= i < before.len() && before[i] == other;
                assert(after[i] == other);
            }
        }
    }
}

proof fn lemma_among(s: Seq<char>, texts: Seq<Seq<char>>)
    ensures
        text::among(s, texts) == texts.contains(s),
{
    if texts.contains(s) {
        let i = choose|i: int| 0 <= i < texts.len() && texts[i] == s;
        assert(texts[i] == s);
    }
}

/// A dependency is to blame by its own name, and by the name behind its alias.
pub proof fn law_blamed_dependency(d: Dependency, blamed: Seq<Seq<char>>, target: Seq<char>)
    ensures
        blamed.contains(d.name@) ==> type_check::is_blamed(d, blamed),
        d.version@ == "npm:"@ + target ==> (type_check::is_blamed(d, blamed) <==> blamed.contains(
            d.name@,
        ) || blamed.contains(type_check::bare_name_spec(target))),
        !begins(d.version@, "npm:"@) ==> (type_check::is_blamed(d, blamed) <==> blamed.contains(
            d.name@,
        )),
{
    lemma_among(d.name@, blamed);
    lemma_among(type_check::bare_name_spec(target), blamed);
    lemma_begins(d.version@, "npm:"@);
    if d.version@ == "npm:"@ + target {
        let p = "npm:"@;
        assert(d.version@.take(p.len() as int) =~= p);
        assert(d.version@.skip(p.len() as int) =~= target);
    }
}

/// What is dropped is just what is to blame, in the order of the manifest.
pub proof fn law_blamed_keys(dependencies: Seq<Dependency>, blamed: Seq<Seq<char>>)
    ensures
        type_check::blamed_keys(dependencies, blamed) == dependencies.filter(
            |d: Dependency| type_check::is_blamed(d, blamed),
        ).map_values(|d: Dependency| d.name),
    decreases dependencies.len(),
{
    reveal(Seq::filter);
    let keep = |d: Dependency| type_check::is_blamed(d, blamed);
    let name = |d: Dependency| d.name;
    if dependencies.len() > 0 {
        let front = dependencies.drop_last();
        law_blamed_keys(front, blamed);
        let kept = front.filter(keep);
        if keep(dependencies.last()) {
            assert(dependencies.filter(keep) == kept.push(dependencies.last()));
            assert(kept.push(dependencies.last()).map_values(name) =~= kept.map_values(name).push(
                dependencies.last().name,
            ));
        }
    } else {
        assert(dependencies.filter(keep).map_values(name) =~= Seq::empty());
    }
}

/// What a failed installation reports ends with the end of what npm said, at
/// most its last two thousand characters, and names every dependency that was
/// dropped.
pub proof fn law_failure_report(dropped: Seq<Seq<char>>, stderr: Seq<char>, i: int)
    ensures
        stderr.len() <= 2000 ==> stderr.is_suffix_of(type_check::install_failure(dropped, stderr)),
        stderr.len() > 2000 ==> stderr.skip(stderr.len() - 2000).is_suffix_of(
            type_check::install_failure(dropped, stderr),
        ),
        0 <= i < dropped.len() ==> crate::report_laws::holds(
            type_check::install_failure(dropped, stderr),
            dropped[i],
        ),
{
    let head = "npm install failed for the cross-repo type-check package — type checking cannot run. Set CARRICK_SKIP_NPM_INSTALL=1 to bypass (type checking will be skipped)."@;
    let history = if dropped.len() == 0 {
        ""@
    } else {
        " Dropped unresolvable dependencies before failing: "@ + text::join_spec(dropped, ", "@)
            + "."@
    };
    let middle = " npm stderr (tail):\n"@;
    let tail = type_check::tail_spec(stderr);
    let whole = head + history + middle + tail;
    assert(whole == type_check::install_failure(dropped, stderr));
    assert(tail =~= whole.subrange(whole.len() - tail.len(), whole.len() as int));
    if 0 <= i < dropped.len() {
        let lead = " Dropped unresolvable dependencies before failing: "@;
        let joined = text::join_spec(dropped, ", "@);
        crate::report_laws::lemma_joined(dropped, ", "@, i);
        crate::report_laws::lemma_holds_in_sum(lead, joined, dropped[i]);
        crate::report_laws::lemma_holds_in_sum(lead + joined, "."@, dropped[i]);
        crate::report_laws::lemma_holds_in_sum(head, history, dropped[i]);
        crate::report_laws::lemma_holds_in_sum(head + history, middle, dropped[i]);
        crate::report_laws::lemma_holds_in_sum(head + history + middle, tail, dropped[i]);
    }
}

/// The compiler is installed at its own version whatever the dependencies say of
/// it, and they all stay otherwise.
pub proof fn law_toolchain(dependencies: Seq<Dependency>, name: Seq<char>, version: Seq<char>)
    ensures
        type_check::with_toolchain(dependencies).contains((name, version)) <==> (if name
            == "typescript"@ {
            version == "5.8.3"@
        } else if name == "ts-node"@ {
            version == "10.9.2"@
        } else {
            exists|i: int|
                0 <= i < dependencies.len() && (#[trigger] dependencies[i]).name@ == name
                    && dependencies[i].version@ == version
        }),
{
    let keys = seq!["typescript"@, "ts-node"@];
    assert(keys[0] == "typescript"@ && keys[1] == "ts-node"@);
    let kept = type_check::without_keys(dependencies, keys);
    let rest = kept.map_values(|d: Dependency| d.deep_view());
    let all = rest.push(("typescript"@, "5.8.3"@)).push(("ts-node"@, "10.9.2"@));
    assert(all == type_check::with_toolchain(dependencies));
    assert("typescript"@ != "ts-node"@) by {
        reveal_strlit("typescript");
        reveal_strlit("ts-node");
        assert("typescript"@.len() != "ts-node"@.len());
    }
    assert(all[rest.len() as int] == ("typescript"@, "5.8.3"@));
    assert(all[rest.len() as int + 1] == ("ts-node"@, "10.9.2"@));
    if all.contains((name, version)) {
        let i = choose|i: int| 0 <= i < all.len() && all[i] == (name, version);
        if i < rest.len() {
            let d = kept[i];
            assert(rest[i] == d.deep_view());
            assert(kept.contains(d));
            type_check::law_dropping_is_exact(dependencies, keys, d);
            let k = choose|k: int| 0 <= k < dependencies.len() && dependencies[k] == d;
            assert(dependencies[k].name@ == name);
            lemma_among(d.name@, keys);
        }
    }
    if name != "typescript"@ && name != "ts-node"@ && exists|i: int|
        0 <= i < dependencies.len() && (#[trigger] dependencies[i]).name@ == name
            && dependencies[i].version@ == version {
        let k = choose|k: int|
            0 <= k < dependencies.len() && (#[trigger] dependencies[k]).name@ == name
                && dependencies[k].version@ == version;
        let d = dependencies[k];
        assert(dependencies.contains(d));
        lemma_among(d.name@, keys);
        type_check::law_dropping_is_exact(dependencies, keys, d);
        let i = choose|i: int| 0 <= i < kept.len() && kept[i] == d;
        assert(rest[i] == (name, version));
        assert(all[i] == (name, version));
    }
}

// ---------------------------------------------------------------------------
// Bundles and entries
// ---------------------------------------------------------------------------

/// Every service with bundled types has a file of its own that begins with them,
/// and no other service has one.
pub proof fn law_bundle_files(repos: Seq<CloudRepoData>, stems: Seq<Seq<char>>, i: int)
    requires
        0 <= i < repos.len() <= stems.len(),
        repos[i].bundled_types is Some,
    ensures
        exists|k: int|
            0 <= k < type_check::bundle_files_spec(repos, stems).len() && is_bundle_of(
                #[trigger] type_check::bundle_files_spec(repos, stems)[k],
                stems[i],
                repos[i].bundled_types->0@,
            ),
        type_check::bundle_files_spec(repos, stems).len() == repos.filter(
            |r: CloudRepoData| r.bundled_types is Some,
        ).len(),
    decreases repos.len(),
{
    lemma_bundle_count(repos, stems);
    let front = repos.drop_last();
    let files = type_check::bundle_files_spec(repos, stems);
    let before = type_check::bundle_files_spec(front, stems);
    if i < front.len() {
        law_bundle_files(front, stems, i);
        let k = choose|k: int|
            0 <= k < before.len() && is_bundle_of(
                #[trigger] before[k],
                stems[i],
                repos[i].bundled_types->0@,
            );
        assert(files[k] == before[k]);
    } else {
        let entries = type_check::manifest_of(repos[i]);
        type_check::law_missing_aliases_only_append(repos[i].bundled_types->0@, entries);
        assert(is_bundle_of(
            files[before.len() as int],
            stems[i],
            repos[i].bundled_types->0@,
        ));
    }
}

/// Whether a file is the bundle of a service.
pub open spec fn is_bundle_of(
    file: (Seq<char>, Seq<char>),
    stem: Seq<char>,
    types: Seq<char>,
) -> bool {
    file.0 == stem + "_types.d.ts"@ && types.is_prefix_of(file.1)
}

proof fn lemma_bundle_count(repos: Seq<CloudRepoData>, stems: Seq<Seq<char>>)
    ensures
        type_check::bundle_files_spec(repos, stems).len() == repos.filter(
            |r: CloudRepoData| r.bundled_types is Some,
        ).len(),
    decreases repos.len(),
{
    reveal(Seq::filter);
    if repos.len() > 0 {
        lemma_bundle_count(repos.drop_last(), stems);
    }
}

/// Whether a service's manifest has the entry.
pub open spec fn has_entry(repo: CloudRepoData, entry: TypeManifestEntry) -> bool {
    repo.type_manifest matches Some(entries) && entries@.contains(entry)
}

/// The entries of a role are just those of that role, over all the services.
pub proof fn law_entries_of_role(
    repos: Seq<CloudRepoData>,
    role: ManifestRole,
    entry: TypeManifestEntry,
)
    ensures
        type_check::entries_of_role(repos, role).contains(entry) <==> entry.role == role
            && exists|i: int| 0 <= i < repos.len() && has_entry(#[trigger] repos[i], entry),
    decreases repos.len(),
{
    let all = type_check::entries_of_role(repos, role);
    if repos.len() > 0 {
        let front = repos.drop_last();
        let last = repos.last();
        let of_role = |e: TypeManifestEntry| e.role == role;
        let before = type_check::entries_of_role(front, role);
        let listed = type_check::manifest_of(last);
        let more = listed.filter(of_role);
        law_entries_of_role(front, role, entry);
        lemma_filter_contains(listed, of_role, entry);
        assert(repos[repos.len() - 1] == last);
        assert(all == before + more);
        assert(listed.contains(entry) == has_entry(last, entry));
        if all.contains(entry) {
            let k = choose|k: int| 0 <= k < all.len() && all[k] == entry;
            if k < before.len() {
                assert(before[k] == entry);
                let i = choose|i: int| 0 <= i < front.len() && has_entry(#[trigger] front[i], entry);
                assert(repos[i] == front[i]);
            } else {
                assert(more[k - before.len()] == entry);
            }
        }
        if entry.role == role && exists|i: int|
            0 <= i < repos.len() && has_entry(#[trigger] repos[i], entry) {
            let i = choose|i: int| 0 <= i < repos.len() && has_entry(#[trigger] repos[i], entry);
            if i < front.len() {
                assert(front[i] == repos[i]);
                let k = choose|k: int| 0 <= k < before.len() && before[k] == entry;
                assert(all[k] == entry);
            } else {
                let k = choose|k: int| 0 <= k < more.len() && more[k] == entry;
                assert(all[before.len() + k] == entry);
            }
        }
    }
}

proof fn lemma_filter_contains(
    s: Seq<TypeManifestEntry>,
    keep: spec_fn(TypeManifestEntry) -> bool,
    x: TypeManifestEntry,
)
    ensures
        s.filter(keep).contains(x) <==> s.contains(x) && keep(x),
    decreases s.len(),
{
    reveal(Seq::filter);
    if s.len() > 0 {
        let front = s.drop_last();
        lemma_filter_contains(front, keep, x);
        let before = front.filter(keep);
        let after = s.filter(keep);
        assert(s[s.len() - 1] == s.last());
        if front.contains(x) {
            let i = choose|i: int| 0 <= i < front.len() && front[i] == x;
            assert(s[i] == x);
        }
        if s.contains(x) {
            let i = choose|i: int| 0 <= i < s.len() && s[i] == x;
            if i < front.len() {
                assert(front[i] == x);
            }
        }
        if before.contains(x) {
            let i = choose|i: int| 0 <= i < before.len() && before[i] == x;
            assert(after[i] == x);
        }
        if after.contains(x) {
            let i = choose|i: int| 0 <= i < after.len() && after[i] == x;
            if i < before.len() {
                assert(before[i] == x);
            }
        }
        if s.last() == x && keep(x) {
            assert(after[before.len() as int] == x);
        }
    }
}

/// A placeholder stands at the end, on a line of its own: the alias as `unknown`,
/// with the marker behind it.
pub proof fn law_placeholder(content: Seq<char>, alias: Seq<char>)
    ensures
        content.len() == 0 || content[content.len() - 1] == '\n' ==> type_check::with_placeholder(
            content,
            alias,
        ) == content + ("export type "@ + alias + " = unknown; // carrick:missing-alias\n"@),
        content.len() > 0 && content[content.len() - 1] != '\n' ==> type_check::with_placeholder(
            content,
            alias,
        ) == content + "\n"@ + ("export type "@ + alias
            + " = unknown; // carrick:missing-alias\n"@),
{
    reveal_strlit(" = unknown; ");
    reveal_strlit("// carrick:missing-alias");
    reveal_strlit("\n");
    reveal_strlit(" = unknown; // carrick:missing-alias\n");
    assert(" = unknown; // carrick:missing-alias\n"@ =~= " = unknown; "@
        + "// carrick:missing-alias"@ + "\n"@);
    let line = "export type "@ + alias + " = unknown; // carrick:missing-alias\n"@;
    if content.len() == 0 || content[content.len() - 1] == '\n' {
        assert(type_check::with_placeholder(content, alias) =~= content + line);
    } else {
        assert(type_check::with_placeholder(content, alias) =~= content + "\n"@ + line);
    }
}

/// A name is declared in the corpus exactly where a service's own manifests, or
/// else the ones that were parsed for it, declare it.
pub proof fn law_declared_in_the_corpus(
    repos: Seq<CloudRepoData>,
    parsed: Seq<Option<Packages>>,
    name: Seq<char>,
)
    ensures
        type_check::corpus_declares(repos, parsed, name) <==> exists|i: int|
            0 <= i < repos.len() && declares_name(#[trigger] repos[i], parsed[i], name),
{
    assert forall|p: Packages| #[trigger] crate::packages::declares(p, name) == names_package(
        p,
        name,
    ) by {
        law_declared_names(p, name);
    }
    if type_check::corpus_declares(repos, parsed, name) {
        let i = choose|i: int|
            0 <= i < repos.len() && #[trigger] type_check::declared_at(repos, parsed, name, i);
        assert(declares_name(repos[i], parsed[i], name));
    }
    if exists|i: int| 0 <= i < repos.len() && declares_name(#[trigger] repos[i], parsed[i], name) {
        let i = choose|i: int|
            0 <= i < repos.len() && declares_name(#[trigger] repos[i], parsed[i], name);
        assert(type_check::declared_at(repos, parsed, name, i));
    }
}

/// Whether the manifests of a service declare the name.
pub open spec fn declares_name(
    repo: CloudRepoData,
    parsed: Option<Packages>,
    name: Seq<char>,
) -> bool {
    if repo.packages is Some {
        names_package(repo.packages->0, name)
    } else {
        parsed is Some && names_package(parsed->0, name)
    }
}

/// Whether one of the manifests has the name, or it is among the names of the
/// repository.
pub open spec fn names_package(p: Packages, name: Seq<char>) -> bool {
    ||| exists|i: int|
        0 <= i < p.package_jsons@.len() && ((#[trigger] p.package_jsons@[i]).name matches Some(n)
            && n@ == name)
    ||| p.internal_names.deep_view().contains(name)
}

/// The names that packages declare are the names of their manifests and those of
/// the repository.
pub proof fn law_declared_names(p: Packages, name: Seq<char>)
    ensures
        crate::packages::declares(p, name) <==> names_package(p, name),
{
    lemma_among(name, p.internal_names.deep_view());
    if exists|i: int|
        0 <= i < p.package_jsons@.len() && crate::packages::is_named(
            #[trigger] p.package_jsons@[i],
            name,
        ) {
        let i = choose|i: int|
            0 <= i < p.package_jsons@.len() && crate::packages::is_named(
                #[trigger] p.package_jsons@[i],
                name,
            );
        assert(p.package_jsons@[i].name is Some);
    }
    if exists|i: int|
        0 <= i < p.package_jsons@.len() && ((#[trigger] p.package_jsons@[i]).name matches Some(n)
            && n@ == name) {
        let i = choose|i: int|
            0 <= i < p.package_jsons@.len() && ((#[trigger] p.package_jsons@[i]).name matches Some(n)
                && n@ == name);
        assert(crate::packages::is_named(p.package_jsons@[i], name));
    }
}

} // verus!
