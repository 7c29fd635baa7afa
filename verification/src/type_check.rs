//! The workspace of the cross-repository type check: bundle files, manifests
//! and the dependencies that are installed for it.

use vstd::prelude::*;

use crate::cloud_storage::{CloudRepoData, ManifestRole, TypeManifestEntry};
use crate::packages::{Dependency, Packages};
use crate::{cloud_storage, naming, packages, patterns, sorting, text};

verus! {

// ---------------------------------------------------------------------------
// Bundle files
// ---------------------------------------------------------------------------

/// The base of the bundle file's name for each service.
pub open spec fn bundle_bases(repos: Seq<CloudRepoData>) -> Seq<Seq<char>> {
    repos.map_values(|r: CloudRepoData| naming::sanitized(cloud_storage::service_id_spec(r)))
}

fn collect_bases(repos: &Vec<CloudRepoData>) -> (r: Vec<String>)
    ensures
        r.deep_view() == bundle_bases(repos@),
{
    let mut bases: Vec<String> = Vec::new();
    let mut i: usize = 0;
    while i < repos.len()
        invariant
            i <= repos@.len(),
            bases.deep_view() == bundle_bases(repos@).take(i as int),
        decreases repos@.len() - i,
    {
        text::push_deep(&mut bases, naming::sanitize(repos[i].service_id()));
        i += 1;
        assert(bases.deep_view() =~= bundle_bases(repos@).take(i as int));
    }
    assert(bundle_bases(repos@).take(i as int) =~= bundle_bases(repos@));
    bases
}

/// The stem of each service's bundle file: its name, else its repository's,
/// numbered where it was used before, so that no two stems are equal.
pub fn bundle_file_stems(all_repo_data: &Vec<CloudRepoData>) -> (r: Vec<String>)
    ensures
        r.deep_view() == naming::stems(bundle_bases(all_repo_data@)),
        r@.len() == all_repo_data@.len(),
        r.deep_view().no_duplicates(),
        forall|i: int|
            0 <= i < r@.len() ==> naming::is_named_after(
                #[trigger] r.deep_view()[i],
                bundle_bases(all_repo_data@)[i],
            ),
{
    naming::unique_stems(&collect_bases(all_repo_data))
}

/// A file to be written.
#[derive(Debug)]
pub struct OutputFile {
    pub name: String,
    pub content: String,
}

/// The model of an [`OutputFile`]: its name and its content.
impl DeepView for OutputFile {
    type V = (Seq<char>, Seq<char>);

    open spec fn deep_view(&self) -> (Seq<char>, Seq<char>) {
        (self.name@, self.content@)
    }
}

/// The bundle files of the services that have bundled types.
pub open spec fn bundle_files_spec(
    repos: Seq<CloudRepoData>,
    stems: Seq<Seq<char>>,
) -> Seq<(Seq<char>, Seq<char>)>
    decreases repos.len(),
{
    if repos.len() == 0 {
        Seq::empty()
    } else {
        let before = bundle_files_spec(repos.drop_last(), stems);
        match repos.last().bundled_types {
            Some(types) => before.push(
                (
                    stems[repos.len() - 1] + "_types.d.ts"@,
                    with_missing_aliases(types@, manifest_of(repos.last())),
                ),
            ),
            None => before,
        }
    }
}

/// The manifest entries of a service; none where it has no manifest.
pub open spec fn manifest_of(repo: CloudRepoData) -> Seq<TypeManifestEntry> {
    match repo.type_manifest {
        Some(entries) => entries@,
        None => Seq::empty(),
    }
}

/// The bundle files to be written, one for each service that has bundled
/// types.
pub fn bundle_files(all_repo_data: &Vec<CloudRepoData>) -> (r: Vec<OutputFile>)
    ensures
        r.deep_view() == bundle_files_spec(
            all_repo_data@,
            naming::stems(bundle_bases(all_repo_data@)),
        ),
{
    let stems = bundle_file_stems(all_repo_data);
    let ghost names = stems.deep_view();
    assert(names.len() == all_repo_data@.len());
    let mut files: Vec<OutputFile> = Vec::new();
    assert(files.deep_view() =~= Seq::empty());
    let mut i: usize = 0;
    while i < all_repo_data.len()
        invariant
            i <= all_repo_data@.len(),
            names == stems.deep_view(),
            names.len() == all_repo_data@.len(),
            files.deep_view() == bundle_files_spec(all_repo_data@.take(i as int), names),
        decreases all_repo_data@.len() - i,
    {
        let repo = &all_repo_data[i];
        assert(all_repo_data@.take(i + 1).drop_last() =~= all_repo_data@.take(i as int));
        assert(names[i as int] == stems@[i as int]@);
        if let Some(types) = &repo.bundled_types {
            let name = text::cat2(&stems[i], "_types.d.ts");
            let content = append_missing_aliases(types.clone(), repo.type_manifest.as_ref());
            text::push_deep(&mut files, OutputFile { name, content });
        }
        i += 1;
    }
    assert(all_repo_data@.take(i as int) =~= all_repo_data@);
    files
}

/// Whether a name is that of a bundle file of one of the first services.
pub open spec fn is_bundle_name(name: Seq<char>, stems: Seq<Seq<char>>, count: nat) -> bool {
    exists|k: int| 0 <= k < count && name == (#[trigger] stems[k]) + "_types.d.ts"@
}

proof fn lemma_bundle_stems(repos: Seq<CloudRepoData>, stems: Seq<Seq<char>>)
    requires
        repos.len() <= stems.len(),
    ensures
        forall|i: int|
            0 <= i < bundle_files_spec(repos, stems).len() ==> is_bundle_name(
                (#[trigger] bundle_files_spec(repos, stems)[i]).0,
                stems,
                repos.len(),
            ),
    decreases repos.len(),
{
    if repos.len() > 0 {
        let front = repos.drop_last();
        lemma_bundle_stems(front, stems);
        let before = bundle_files_spec(front, stems);
        let after = bundle_files_spec(repos, stems);
        assert forall|i: int| 0 <= i < after.len() implies is_bundle_name(
            (#[trigger] after[i]).0,
            stems,
            repos.len(),
        ) by {
            if i < before.len() {
                assert(after[i] == before[i]);
                let k = choose|k: int|
                    0 <= k < front.len() && before[i].0 == (#[trigger] stems[k])
                        + "_types.d.ts"@;
                assert(after[i].0 == stems[k] + "_types.d.ts"@);
            } else {
                assert(after[i].0 == stems[repos.len() - 1] + "_types.d.ts"@);
            }
        }
    }
}

proof fn lemma_bundle_names(repos: Seq<CloudRepoData>, stems: Seq<Seq<char>>)
    requires
        repos.len() <= stems.len(),
        stems.no_duplicates(),
    ensures
        forall|i: int, j: int|
            0 <= i < j < bundle_files_spec(repos, stems).len() ==> (#[trigger] bundle_files_spec(
                repos,
                stems,
            )[i]).0 != (#[trigger] bundle_files_spec(repos, stems)[j]).0,
    decreases repos.len(),
{
    if repos.len() > 0 {
        let front = repos.drop_last();
        lemma_bundle_names(front, stems);
        lemma_bundle_stems(front, stems);
        let before = bundle_files_spec(front, stems);
        let after = bundle_files_spec(repos, stems);
        assert forall|i: int, j: int| 0 <= i < j < after.len() implies (#[trigger] after[i]).0 != (
        #[trigger] after[j]).0 by {
            assert(after[i] == before[i]);
            if j < before.len() {
                assert(after[j] == before[j]);
            } else {
                assert(is_bundle_name(before[i].0, stems, front.len()));
                let k = choose|k: int|
                    0 <= k < front.len() && before[i].0 == (#[trigger] stems[k])
                        + "_types.d.ts"@;
                let last = stems[repos.len() - 1];
                assert(stems[k] != last);
                assert((stems[k] + "_types.d.ts"@).take(
                    (stems[k] + "_types.d.ts"@).len() - "_types.d.ts"@.len(),
                ) =~= stems[k]);
                assert((last + "_types.d.ts"@).take(
                    (last + "_types.d.ts"@).len() - "_types.d.ts"@.len(),
                ) =~= last);
            }
        }
    }
}

/// No bundle file is written over another, and none outside of its directory.
pub proof fn law_bundles_do_not_clobber(repos: Seq<CloudRepoData>)
    ensures
        ({
            let stems = naming::stems(bundle_bases(repos));
            let files = bundle_files_spec(repos, stems);
            &&& forall|i: int, j: int|
                0 <= i < j < files.len() ==> (#[trigger] files[i]).0 != (#[trigger] files[j]).0
            &&& forall|i: int|
                0 <= i < repos.len() ==> !(#[trigger] stems[i]).contains('/')
                    && !stems[i].contains('\\')
        }),
{
    let bases = bundle_bases(repos);
    let stems = naming::stems(bases);
    naming::law_stems_distinct(bases);
    lemma_bundle_names(repos, stems);
    assert forall|i: int| 0 <= i < repos.len() implies !(#[trigger] stems[i]).contains('/')
        && !stems[i].contains('\\') by {
        assert(bases[i] == naming::sanitized(cloud_storage::service_id_spec(repos[i])));
        naming::law_no_separators(stems[i], cloud_storage::service_id_spec(repos[i]));
    }
}

/// The entries of one role over all services.
pub open spec fn entries_of_role(repos: Seq<CloudRepoData>, role: ManifestRole) -> Seq<
    TypeManifestEntry,
>
    decreases repos.len(),
{
    if repos.len() == 0 {
        Seq::empty()
    } else {
        entries_of_role(repos.drop_last(), role) + manifest_of(repos.last()).filter(
            |e: TypeManifestEntry| e.role == role,
        )
    }
}

/// The entries of one role over all services, resolved or not: every entry
/// reaches the check.
pub fn manifest_entries_of_role(all_repo_data: &Vec<CloudRepoData>, role: ManifestRole) -> (r: Vec<
    TypeManifestEntry,
>)
    ensures
        r@ == entries_of_role(all_repo_data@, role),
{
    let ghost pred = |e: TypeManifestEntry| e.role == role;
    let mut out: Vec<TypeManifestEntry> = Vec::new();
    let mut i: usize = 0;
    while i < all_repo_data.len()
        invariant
            i <= all_repo_data@.len(),
            pred == (|e: TypeManifestEntry| e.role == role),
            out@ == entries_of_role(all_repo_data@.take(i as int), role),
        decreases all_repo_data@.len() - i,
    {
        let ghost before = out@;
        assert(all_repo_data@.take(i + 1).drop_last() =~= all_repo_data@.take(i as int));
        let ghost entries = manifest_of(all_repo_data@[i as int]);
        if let Some(list) = &all_repo_data[i].type_manifest {
            let mut j: usize = 0;
            assert(entries.take(0).filter(pred) =~= Seq::empty()) by {
                reveal(Seq::filter);
            }
            assert(before + entries.take(0).filter(pred) =~= before);
            while j < list.len()
                invariant
                    j <= list@.len(),
                    entries == list@,
                    pred == (|e: TypeManifestEntry| e.role == role),
                    out@ == before + entries.take(j as int).filter(pred),
                decreases list@.len() - j,
            {
                proof {
                    reveal(Seq::filter);
                    assert(entries.take(j + 1).drop_last() =~= entries.take(j as int));
                }
                if list[j].role == role {
                    out.push(list[j].clone());
                    assert(out@ =~= before + entries.take(j + 1).filter(pred));
                }
                j += 1;
            }
            assert(entries.take(j as int) =~= entries);
        } else {
            assert(entries.filter(pred) =~= Seq::empty()) by {
                reveal(Seq::filter);
            }
            assert(before + entries.filter(pred) =~= before);
        }
        i += 1;
    }
    assert(all_repo_data@.take(i as int) =~= all_repo_data@);
    out
}

// ---------------------------------------------------------------------------
// Aliases in a declaration bundle
// ---------------------------------------------------------------------------

/// The marker on every alias that is injected for an entry which never reached
/// the bundle: it tells the placeholder from a type that was written
/// `= unknown` on purpose.
pub open spec fn missing_alias_marker() -> Seq<char> {
    "// carrick:missing-alias"@
}

/// The pattern that finds a declaration of the alias.
pub open spec fn declaration_pattern(alias: Seq<char>) -> Seq<char> {
    "\\b(type|interface|class|enum|namespace)\\s+"@ + patterns::escaped(alias) + "\\b"@
}

/// The pattern that finds the injected placeholder of the alias.
pub open spec fn placeholder_pattern(alias: Seq<char>) -> Seq<char> {
    "\\btype\\s+"@ + patterns::escaped(alias) + "\\b[^\\n]*=\\s*unknown\\s*;[^\\n]*"@
        + patterns::escaped(missing_alias_marker())
}

/// Whether the bundle declares the alias.
pub open spec fn defines_alias(content: Seq<char>, alias: Seq<char>) -> bool {
    patterns::pattern_found(declaration_pattern(alias), content) == Some(true)
}

/// Whether the bundle carries the injected placeholder of the alias.
pub open spec fn trivially_unknown(content: Seq<char>, alias: Seq<char>) -> bool {
    patterns::pattern_found(placeholder_pattern(alias), content) == Some(true)
}

/// Whether the bundle declares the alias, as a type or in any other form.
pub fn dts_defines_alias(content: &str, alias: &str) -> (r: bool)
    ensures
        r == defines_alias(content@, alias@),
{
    let escaped = patterns::escape(alias);
    let pattern = text::cat3(
        "\\b(type|interface|class|enum|namespace)\\s+",
        &escaped,
        "\\b",
    );
    match patterns::is_match(&pattern, content) {
        Some(found) => found,
        None => false,
    }
}

/// Whether the bundle carries the placeholder that was injected for the alias.
/// A type that its author wrote `= unknown` has no marker and is not one.
pub fn dts_alias_is_trivially_unknown(content: &str, alias: &str) -> (r: bool)
    ensures
        r == trivially_unknown(content@, alias@),
{
    let escaped = patterns::escape(alias);
    let marker = patterns::escape("// carrick:missing-alias");
    let pattern = text::cat4(
        "\\btype\\s+",
        &escaped,
        "\\b[^\\n]*=\\s*unknown\\s*;[^\\n]*",
        &marker,
    );
    match patterns::is_match(&pattern, content) {
        Some(found) => found,
        None => false,
    }
}

/// The content with the alias's placeholder on a line of its own at the end.
pub open spec fn with_placeholder(content: Seq<char>, alias: Seq<char>) -> Seq<char> {
    let start = if content.len() > 0 && content.last() != '\n' {
        content + "\n"@
    } else {
        content
    };
    start + "export type "@ + alias + " = unknown; "@ + missing_alias_marker() + "\n"@
}

/// Appends the placeholder of an alias, unless the alias is defined.
pub fn append_placeholder(content: String, alias: &str, defined: bool) -> (r: String)
    ensures
        r@ == if defined {
            content@
        } else {
            with_placeholder(content@, alias@)
        },
{
    if defined {
        return content;
    }
    let mut updated = content;
    if !updated.as_str().is_empty() && !text::ends_with_char(&updated, '\n') {
        updated.append("\n");
    }
    updated.append("export type ");
    updated.append(alias);
    updated.append(" = unknown; ");
    updated.append("// carrick:missing-alias");
    updated.append("\n");
    updated
}

/// Whether one of the entries has the alias.
pub open spec fn alias_listed(entries: Seq<TypeManifestEntry>, alias: Seq<char>) -> bool {
    exists|i: int| 0 <= i < entries.len() && (#[trigger] entries[i]).type_alias@ == alias
}

/// The content with a placeholder for each alias of the manifest that it does
/// not define.
pub open spec fn with_missing_aliases(
    content: Seq<char>,
    entries: Seq<TypeManifestEntry>,
) -> Seq<char>
    decreases entries.len(),
{
    if entries.len() == 0 {
        content
    } else {
        let before = with_missing_aliases(content, entries.drop_last());
        let alias = entries.last().type_alias@;
        if alias_listed(entries.drop_last(), alias) || defines_alias(before, alias) {
            before
        } else {
            with_placeholder(before, alias)
        }
    }
}

/// Appends a placeholder for each alias of the manifest that the bundle does
/// not define, each alias once. Without a manifest the bundle stays as it is.
pub fn append_missing_aliases(content: String, manifest: Option<&Vec<TypeManifestEntry>>) -> (r:
    String)
    ensures
        r@ == (match manifest {
            Some(entries) => with_missing_aliases(content@, entries@),
            None => content@,
        }),
{
    let entries = match manifest {
        Some(entries) => entries,
        None => {
            return content;
        },
    };
    let ghost original = content@;
    let mut updated = content;
    let mut i: usize = 0;
    assert(entries@.take(0) =~= Seq::empty());
    while i < entries.len()
        invariant
            i <= entries@.len(),
            updated@ == with_missing_aliases(original, entries@.take(i as int)),
        decreases entries@.len() - i,
    {
        let alias = &entries[i].type_alias;
        let ghost front = entries@.take(i as int);
        assert(entries@.take(i + 1).drop_last() =~= front);
        let mut seen = false;
        let mut j: usize = 0;
        while j < i
            invariant
                j <= i < entries@.len(),
                *alias == entries@[i as int].type_alias,
                front == entries@.take(i as int),
                seen ==> alias_listed(front, alias@),
                !seen ==> forall|k: int| 0 <= k < j ==> entries@[k].type_alias@ != alias@,
            decreases i - j,
        {
            if text::same_text(&entries[j].type_alias, alias) {
                assert(front[j as int].type_alias@ == alias@);
                seen = true;
            }
            j += 1;
        }
        if !seen {
            assert(!alias_listed(front, alias@));
            let defined = dts_defines_alias(&updated, alias);
            updated = append_placeholder(updated, alias, defined);
        }
        i += 1;
    }
    assert(entries@.take(i as int) =~= entries@);
    updated
}

/// Whether the bundle declares every alias of the manifest.
pub open spec fn defines_all(content: Seq<char>, entries: Seq<TypeManifestEntry>) -> bool {
    forall|i: int|
        0 <= i < entries.len() ==> defines_alias(content, (#[trigger] entries[i]).type_alias@)
}

/// A bundle that declares every alias of the manifest stays as it is.
pub proof fn law_defined_aliases_stay(content: Seq<char>, entries: Seq<TypeManifestEntry>)
    ensures
        defines_all(content, entries) ==> with_missing_aliases(content, entries) == content,
    decreases entries.len(),
{
    if entries.len() > 0 && defines_all(content, entries) {
        let front = entries.drop_last();
        assert forall|i: int| 0 <= i < front.len() implies defines_alias(
            content,
            (#[trigger] front[i]).type_alias@,
        ) by {
            assert(defines_alias(content, entries[i].type_alias@));
        }
        law_defined_aliases_stay(content, front);
        assert(defines_alias(content, entries[entries.len() - 1].type_alias@));
    }
}

/// Whether an alias is a word of ASCII letters, digits and underscores, not too
/// long to be searched for.
pub open spec fn is_word_alias(alias: Seq<char>) -> bool {
    patterns::is_word(alias) && alias.len() <= 9_000
}

/// The keywords that declare an alias.
pub open spec fn declaring_keywords() -> Seq<Seq<char>> {
    seq!["type"@, "interface"@, "class"@, "enum"@, "namespace"@]
}

proof fn lemma_keywords_joined()
    ensures
        text::join_spec(declaring_keywords(), "|"@) == "type|interface|class|enum|namespace"@,
{
    let k = declaring_keywords();
    let k4 = k.drop_last();
    let k3 = k4.drop_last();
    let k2 = k3.drop_last();
    let k1 = k2.drop_last();
    reveal_strlit("|");
    reveal_strlit("type");
    reveal_strlit("interface");
    reveal_strlit("class");
    reveal_strlit("enum");
    reveal_strlit("namespace");
    reveal_strlit("type|interface|class|enum|namespace");
    assert(text::join_spec(k1, "|"@) == "type"@);
    assert(text::join_spec(k2, "|"@) == "type"@ + "|"@ + "interface"@);
    assert(text::join_spec(k3, "|"@) == text::join_spec(k2, "|"@) + "|"@ + "class"@);
    assert(text::join_spec(k4, "|"@) == text::join_spec(k3, "|"@) + "|"@ + "enum"@);
    assert(text::join_spec(k, "|"@) == text::join_spec(k4, "|"@) + "|"@ + "namespace"@);
    assert(text::join_spec(k, "|"@) =~= "type|interface|class|enum|namespace"@);
}

proof fn lemma_keywords_are_words()
    ensures
        forall|i: int|
            0 <= i < declaring_keywords().len() ==> patterns::is_word(
                #[trigger] declaring_keywords()[i],
            ),
{
    reveal_strlit("type");
    reveal_strlit("interface");
    reveal_strlit("class");
    reveal_strlit("enum");
    reveal_strlit("namespace");
}

proof fn lemma_declaration_pattern(alias: Seq<char>)
    requires
        is_word_alias(alias),
    ensures
        patterns::is_keyword_pattern(declaration_pattern(alias), declaring_keywords(), alias),
{
    lemma_keywords_joined();
    lemma_keywords_are_words();
    patterns::lemma_word_escaped(alias);
    reveal_strlit("\\b(type|interface|class|enum|namespace)\\s+");
    reveal_strlit("\\b(");
    reveal_strlit("type|interface|class|enum|namespace");
    reveal_strlit(")\\s+");
    reveal_strlit("\\b");
    assert("\\b(type|interface|class|enum|namespace)\\s+"@ =~= "\\b("@
        + "type|interface|class|enum|namespace"@ + ")\\s+"@);
}

proof fn lemma_placeholder_declares(content: Seq<char>, alias: Seq<char>)
    requires
        is_word_alias(alias),
    ensures
        defines_alias(with_placeholder(content, alias), alias),
{
    lemma_declaration_pattern(alias);
    reveal_strlit(" ");
    reveal_strlit("type");
    reveal_strlit("export type ");
    reveal_strlit(" = unknown; ");
    let start = if content.len() > 0 && content.last() != '\n' {
        content + "\n"@
    } else {
        content
    };
    let whole = with_placeholder(content, alias);
    let sought = " "@ + "type"@ + " "@ + alias + " "@;
    let at: int = start.len() as int + 6;
    assert(whole.subrange(at, at + sought.len()) =~= sought);
    assert(text::stands_at(whole, sought, at));
    assert(declaring_keywords()[0] == "type"@);
    assert(patterns::stands_spaced(whole, declaring_keywords()[0], alias));
    assert(patterns::is_bound_to_be_found(declaration_pattern(alias), whole));
}

proof fn lemma_stays_defined(content: Seq<char>, other: Seq<char>, alias: Seq<char>)
    requires
        is_word_alias(alias),
    ensures
        defines_alias(content, alias) ==> defines_alias(with_placeholder(content, other), alias),
{
    lemma_declaration_pattern(alias);
    reveal_strlit("\n");
    reveal_strlit("export type ");
    let whole = with_placeholder(content, other);
    assert(whole.subrange(0, content.len() as int) =~= content);
    let n = content.len() as int;
    assert(whole.len() > n);
    if n > 0 {
        assert(whole[n - 1] == content.last());
        if content.last() != '\n' {
            assert(whole[n] == '\n');
        }
    }
    patterns::lemma_stays_found(
        declaration_pattern(alias),
        declaring_keywords(),
        alias,
        content,
        whole,
    );
}

proof fn lemma_all_stay_defined(
    content: Seq<char>,
    entries: Seq<TypeManifestEntry>,
    alias: Seq<char>,
)
    requires
        is_word_alias(alias),
    ensures
        defines_alias(content, alias) ==> defines_alias(
            with_missing_aliases(content, entries),
            alias,
        ),
    decreases entries.len(),
{
    if entries.len() > 0 {
        let front = entries.drop_last();
        lemma_all_stay_defined(content, front, alias);
        lemma_stays_defined(
            with_missing_aliases(content, front),
            entries.last().type_alias@,
            alias,
        );
    }
}

/// Each alias of the manifest that is a word is declared in what comes out.
pub proof fn law_missing_aliases_are_defined(content: Seq<char>, entries: Seq<TypeManifestEntry>)
    ensures
        forall|i: int|
            0 <= i < entries.len() && is_word_alias((#[trigger] entries[i]).type_alias@)
                ==> defines_alias(
                with_missing_aliases(content, entries),
                entries[i].type_alias@,
            ),
    decreases entries.len(),
{
    if entries.len() > 0 {
        let front = entries.drop_last();
        let before = with_missing_aliases(content, front);
        let after = with_missing_aliases(content, entries);
        let last = entries.last().type_alias@;
        law_missing_aliases_are_defined(content, front);
        assert forall|i: int|
            0 <= i < entries.len() && is_word_alias(
                (#[trigger] entries[i]).type_alias@,
            ) implies defines_alias(after, entries[i].type_alias@) by {
            let alias = entries[i].type_alias@;
            if i < front.len() {
                assert(front[i] == entries[i]);
                lemma_stays_defined(before, last, alias);
            } else if alias_listed(front, alias) {
                let j = choose|j: int|
                    0 <= j < front.len() && (#[trigger] front[j]).type_alias@ == alias;
                assert(defines_alias(before, front[j].type_alias@));
            } else {
                lemma_placeholder_declares(before, alias);
            }
        }
    }
}

/// Whether each alias of the manifest is a word.
pub open spec fn all_word_aliases(entries: Seq<TypeManifestEntry>) -> bool {
    forall|i: int|
        0 <= i < entries.len() ==> is_word_alias((#[trigger] entries[i]).type_alias@)
}

/// Appending the missing aliases a second time adds nothing: where each alias is
/// a word, and for any others where the search for a declaration finds each of
/// them in what came out the first time.
pub proof fn law_missing_aliases_twice(content: Seq<char>, entries: Seq<TypeManifestEntry>)
    ensures
        all_word_aliases(entries) || defines_all(with_missing_aliases(content, entries), entries)
            ==> with_missing_aliases(with_missing_aliases(content, entries), entries)
            == with_missing_aliases(content, entries),
{
    let once = with_missing_aliases(content, entries);
    law_defined_aliases_stay(once, entries);
    law_missing_aliases_are_defined(content, entries);
    if all_word_aliases(entries) {
        assert forall|i: int| 0 <= i < entries.len() implies defines_alias(
            once,
            (#[trigger] entries[i]).type_alias@,
        ) by {
            assert(is_word_alias(entries[i].type_alias@));
        }
    }
}

/// The entries that have another alias.
pub open spec fn without_alias(entries: Seq<TypeManifestEntry>, alias: Seq<char>) -> Seq<
    TypeManifestEntry,
>
    decreases entries.len(),
{
    if entries.len() == 0 {
        Seq::empty()
    } else {
        let before = without_alias(entries.drop_last(), alias);
        if entries.last().type_alias@ == alias {
            before
        } else {
            before.push(entries.last())
        }
    }
}

proof fn lemma_others_listed(
    entries: Seq<TypeManifestEntry>,
    alias: Seq<char>,
    other: Seq<char>,
)
    requires
        other != alias,
    ensures
        alias_listed(without_alias(entries, alias), other) == alias_listed(entries, other),
    decreases entries.len(),
{
    if entries.len() > 0 {
        let front = entries.drop_last();
        let before = without_alias(front, alias);
        let after = without_alias(entries, alias);
        lemma_others_listed(front, alias, other);
        if alias_listed(entries, other) {
            let i = choose|i: int|
                0 <= i < entries.len() && (#[trigger] entries[i]).type_alias@ == other;
            if i < front.len() {
                assert(front[i].type_alias@ == other);
                assert(alias_listed(before, other));
                let j = choose|j: int|
                    0 <= j < before.len() && (#[trigger] before[j]).type_alias@ == other;
                assert(after[j].type_alias@ == other);
            } else {
                assert(after[before.len() as int].type_alias@ == other);
            }
        }
        if alias_listed(after, other) {
            let i = choose|i: int|
                0 <= i < after.len() && (#[trigger] after[i]).type_alias@ == other;
            if i < before.len() {
                assert(before[i].type_alias@ == other);
                assert(alias_listed(front, other));
                let j = choose|j: int|
                    0 <= j < front.len() && (#[trigger] front[j]).type_alias@ == other;
                assert(entries[j].type_alias@ == other);
            } else {
                assert(entries[entries.len() - 1].type_alias@ == other);
            }
        }
    }
}

/// A word alias that the bundle declares gets no placeholder: what comes out is
/// the same without its entries in the manifest.
pub proof fn law_defined_alias_gets_no_placeholder(
    content: Seq<char>,
    entries: Seq<TypeManifestEntry>,
    alias: Seq<char>,
)
    requires
        is_word_alias(alias),
    ensures
        defines_alias(content, alias) ==> with_missing_aliases(content, entries)
            == with_missing_aliases(content, without_alias(entries, alias)),
    decreases entries.len(),
{
    if entries.len() > 0 && defines_alias(content, alias) {
        let front = entries.drop_last();
        let kept = without_alias(entries, alias);
        let last = entries.last().type_alias@;
        law_defined_alias_gets_no_placeholder(content, front, alias);
        if last == alias {
            lemma_all_stay_defined(content, front, alias);
        } else {
            lemma_others_listed(front, alias, last);
            assert(kept.drop_last() =~= without_alias(front, alias));
            assert(kept.last() == entries.last());
        }
    }
}

/// Nothing of the bundle is lost: the content stands at the beginning of what
/// comes out.
pub proof fn law_missing_aliases_only_append(content: Seq<char>, entries: Seq<TypeManifestEntry>)
    ensures
        content.is_prefix_of(with_missing_aliases(content, entries)),
    decreases entries.len(),
{
    if entries.len() > 0 {
        law_missing_aliases_only_append(content, entries.drop_last());
        let before = with_missing_aliases(content, entries.drop_last());
        let after = with_missing_aliases(content, entries);
        assert(before.is_prefix_of(after)) by {
            let alias = entries.last().type_alias@;
            let p = with_placeholder(before, alias);
            assert(p.subrange(0, before.len() as int) =~= before);
        }
        assert(after.subrange(0, content.len() as int) =~= before.subrange(
            0,
            content.len() as int,
        ));
    } else {
        assert(content.subrange(0, content.len() as int) =~= content);
    }
}

// ---------------------------------------------------------------------------
// Dependencies of the type-check package
// ---------------------------------------------------------------------------

/// Whether a version is resolved by a protocol other than the registry's.
pub open spec fn non_registry(version: Seq<char>) -> bool {
    ||| "workspace:"@.is_prefix_of(version)
    ||| "patch:"@.is_prefix_of(version)
    ||| "portal:"@.is_prefix_of(version)
    ||| "link:"@.is_prefix_of(version)
    ||| "file:"@.is_prefix_of(version)
    ||| "catalog:"@.is_prefix_of(version)
    ||| "git+"@.is_prefix_of(version)
    ||| "git:"@.is_prefix_of(version)
    ||| "github:"@.is_prefix_of(version)
    ||| "http:"@.is_prefix_of(version)
    ||| "https:"@.is_prefix_of(version)
    ||| "ssh:"@.is_prefix_of(version)
}

/// Whether a version is resolved by a protocol other than the registry's.
fn is_non_registry(version: &str) -> (r: bool)
    ensures
        r == non_registry(version@),
{
    text::starts_with(version, "workspace:") || text::starts_with(version, "patch:")
        || text::starts_with(version, "portal:") || text::starts_with(version, "link:")
        || text::starts_with(version, "file:") || text::starts_with(version, "catalog:")
        || text::starts_with(version, "git+") || text::starts_with(version, "git:")
        || text::starts_with(version, "github:") || text::starts_with(version, "http:")
        || text::starts_with(version, "https:") || text::starts_with(version, "ssh:")
}

/// Whether one of the ten digits stands in the text.
pub open spec fn has_digit(s: Seq<char>) -> bool {
    exists|i: int| 0 <= i < s.len() && '0' <= #[trigger] s[i] && s[i] <= '9'
}

fn contains_digit(s: &str) -> (r: bool)
    ensures
        r == has_digit(s@),
{
    let v = text::chars_of(s);
    let mut i: usize = 0;
    while i < v.len()
        invariant
            i <= v@.len(),
            v@ == s@,
            forall|j: int| 0 <= j < i ==> !('0' <= #[trigger] v@[j] && v@[j] <= '9'),
        decreases v@.len() - i,
    {
        if '0' <= v[i] && v[i] <= '9' {
            assert('0' <= s@[i as int] && s@[i as int] <= '9');
            return true;
        }
        i += 1;
    }
    false
}

/// The name in a `name@range`: what stands before the last `@` that is not the
/// first character.
pub open spec fn bare_name_spec(s: Seq<char>) -> Seq<char> {
    let i = text::last_index(s, '@');
    if i > 0 {
        s.take(i)
    } else {
        s
    }
}

/// The range in a `name@range`; all of it where there is no range.
pub open spec fn range_spec(s: Seq<char>) -> Seq<char> {
    let i = text::last_index(s, '@');
    if i > 0 {
        s.skip(i + 1)
    } else {
        s
    }
}

/// The name in a `name@range`. Scoped names keep their leading `@`.
pub fn bare_name(s: &str) -> (r: String)
    ensures
        r@ == bare_name_spec(s@),
{
    let v = text::chars_of(s);
    proof {
        text::lemma_last_index(s@, '@');
    }
    match text::rfind_char(&v, '@') {
        Some(i) => {
            if i > 0 {
                let r = text::text_range(&v, 0, i);
                assert(r@ =~= s@.take(i as int));
                r
            } else {
                text::owned(s)
            }
        },
        None => text::owned(s),
    }
}

fn range_of(s: &str) -> (r: String)
    ensures
        r@ == range_spec(s@),
{
    let v = text::chars_of(s);
    proof {
        text::lemma_last_index(s@, '@');
    }
    match text::rfind_char(&v, '@') {
        Some(i) => {
            assert(i < v.len());
            if i > 0 {
                let r = text::text_range(&v, i + 1, v.len());
                assert(r@ =~= s@.skip(i + 1));
                r
            } else {
                text::owned(s)
            }
        },
        None => text::owned(s),
    }
}

/// The last `npm:` alias that some resolutions give for a name.
pub open spec fn alias_in(resolutions: Seq<Dependency>, name: Seq<char>) -> Option<Dependency>
    decreases resolutions.len(),
{
    if resolutions.len() == 0 {
        None
    } else if "npm:"@.is_prefix_of(resolutions.last().version@) && bare_name_spec(
        resolutions.last().name@,
    ) == name {
        Some(resolutions.last())
    } else {
        alias_in(resolutions.drop_last(), name)
    }
}

/// The last `npm:` alias that the manifests' resolutions give for a name.
pub open spec fn resolution_alias(
    manifests: Seq<packages::PackageJson>,
    name: Seq<char>,
) -> Option<Dependency>
    decreases manifests.len(),
{
    if manifests.len() == 0 {
        None
    } else {
        match alias_in(manifests.last().resolutions@, name) {
            Some(d) => Some(d),
            None => resolution_alias(manifests.drop_last(), name),
        }
    }
}

fn find_alias_in<'a>(resolutions: &'a Vec<Dependency>, name: &str) -> (r: Option<&'a Dependency>)
    ensures
        match r {
            Some(d) => alias_in(resolutions@, name@) == Some(*d) && "npm:"@.is_prefix_of(
                d.version@,
            ),
            None => alias_in(resolutions@, name@) is None,
        },
{
    let mut i: usize = resolutions.len();
    assert(resolutions@.take(i as int) =~= resolutions@);
    while i > 0
        invariant
            i <= resolutions@.len(),
            alias_in(resolutions@, name@) == alias_in(resolutions@.take(i as int), name@),
        decreases i,
    {
        assert(resolutions@.take(i as int).drop_last() =~= resolutions@.take(i - 1));
        let d = &resolutions[i - 1];
        if text::starts_with(&d.version, "npm:") && text::same_text(&bare_name(&d.name), name) {
            return Some(d);
        }
        i -= 1;
    }
    None
}

fn find_resolution_alias<'a>(manifests: &'a Vec<packages::PackageJson>, name: &str) -> (r: Option<
    &'a Dependency,
>)
    ensures
        match r {
            Some(d) => resolution_alias(manifests@, name@) == Some(*d) && "npm:"@.is_prefix_of(
                d.version@,
            ),
            None => resolution_alias(manifests@, name@) is None,
        },
{
    let mut i: usize = manifests.len();
    assert(manifests@.take(i as int) =~= manifests@);
    while i > 0
        invariant
            i <= manifests@.len(),
            resolution_alias(manifests@, name@) == resolution_alias(
                manifests@.take(i as int),
                name@,
            ),
        decreases i,
    {
        assert(manifests@.take(i as int).drop_last() =~= manifests@.take(i - 1));
        match find_alias_in(&manifests[i - 1].resolutions, name) {
            Some(d) => {
                return Some(d);
            },
            None => {},
        }
        i -= 1;
    }
    None
}

/// The version with which a merged dependency is installed for the type check,
/// `None` where it is left out. A name that the scanned manifests declare is
/// never installed. A version is unusable where it is empty, the word
/// `undefined`, without a digit or of a non-registry protocol. An alias from
/// the resolutions stands in for the version, where its own range can be
/// resolved.
pub open spec fn installed_version(
    dependency: Dependency,
    manifests: Seq<packages::PackageJson>,
    is_internal: bool,
) -> Option<Seq<char>> {
    let version = text::trim_spec(dependency.version@);
    if is_internal || version.len() == 0 || version == "undefined"@ || !has_digit(version) || non_registry(
        version,
    ) {
        None
    } else {
        match resolution_alias(manifests, dependency.name@) {
            Some(alias) => {
                let range = range_spec(alias.version@.skip(4));
                if has_digit(range) && !non_registry(range) {
                    Some(alias.version@)
                } else {
                    None
                }
            },
            None => Some(version),
        }
    }
}

/// The model of a [`Dependency`]: its name and its version.
impl DeepView for Dependency {
    type V = (Seq<char>, Seq<char>);

    open spec fn deep_view(&self) -> (Seq<char>, Seq<char>) {
        (self.name@, self.version@)
    }
}

/// The dependencies that are installed for the type check, in their order.
pub open spec fn installed(
    dependencies: Seq<Dependency>,
    own: Packages,
    corpus_internal: Seq<Seq<char>>,
) -> Seq<(Seq<char>, Seq<char>)>
    decreases dependencies.len(),
{
    if dependencies.len() == 0 {
        Seq::empty()
    } else {
        let before = installed(dependencies.drop_last(), own, corpus_internal);
        let d = dependencies.last();
        let is_internal = packages::declares(own, d.name@) || text::among(
            d.name@,
            corpus_internal,
        );
        match installed_version(d, own.package_jsons@, is_internal) {
            Some(version) => before.push((d.name@, version)),
            None => before,
        }
    }
}

/// The version with which one merged dependency is installed.
fn version_to_install(
    dependency: &Dependency,
    manifests: &Vec<packages::PackageJson>,
    is_internal: bool,
) -> (r: Option<String>)
    ensures
        r.deep_view() == installed_version(*dependency, manifests@, is_internal),
{
    if is_internal {
        return None;
    }
    let version = text::trim(&dependency.version);
    if version.as_str().is_empty() || text::same_text(&version, "undefined") || !contains_digit(
        &version,
    ) || is_non_registry(&version) {
        return None;
    }
    match find_resolution_alias(manifests, &dependency.name) {
        Some(alias) => {
            let v = text::chars_of(&alias.version);
            proof {
                reveal_strlit("npm:");
            }
            let target = text::text_range(&v, 4, v.len());
            assert(target@ =~= alias.version@.skip(4));
            let range = range_of(&target);
            if contains_digit(&range) && !is_non_registry(&range) {
                Some(alias.version.clone())
            } else {
                None
            }
        },
        None => Some(version),
    }
}

/// The dependencies of the synthetic type-check package: the merged ones,
/// without unusable and non-registry versions and without the packages that
/// the scanned repositories declare themselves.
pub fn synthetic_type_check_dependencies(own: &Packages, corpus_internal: &Vec<String>) -> (r: Vec<
    Dependency,
>)
    ensures
        r.deep_view() == installed(
            own.merged_dependencies@,
            *own,
            corpus_internal.deep_view(),
        ),
{
    let internal = own.internal_package_names();
    let merged = own.get_dependencies();
    let mut out: Vec<Dependency> = Vec::new();
    assert(out.deep_view() =~= Seq::empty());
    let mut i: usize = 0;
    assert(merged@.take(0) =~= Seq::empty());
    while i < merged.len()
        invariant
            i <= merged@.len(),
            *merged == own.merged_dependencies,
            forall|name: Seq<char>|
                #[trigger] text::among(name, internal.deep_view()) <==> packages::declares(
                    *own,
                    name,
                ),
            out.deep_view() == installed(
                merged@.take(i as int),
                *own,
                corpus_internal.deep_view(),
            ),
        decreases merged@.len() - i,
    {
        assert(merged@.take(i + 1).drop_last() =~= merged@.take(i as int));
        let d = &merged[i];
        let is_internal = text::is_among(&d.name, &internal) || text::is_among(
            &d.name,
            corpus_internal,
        );
        if let Some(version) = version_to_install(d, &own.package_jsons, is_internal) {
            text::push_deep(&mut out, Dependency { name: d.name.clone(), version });
        }
        i += 1;
    }
    assert(merged@.take(i as int) =~= merged@);
    out
}

proof fn lemma_npm_alias_is_registry(version: Seq<char>)
    requires
        "npm:"@.is_prefix_of(version),
    ensures
        !non_registry(version),
{
    reveal_strlit("npm:");
    reveal_strlit("workspace:");
    reveal_strlit("patch:");
    reveal_strlit("portal:");
    reveal_strlit("link:");
    reveal_strlit("file:");
    reveal_strlit("catalog:");
    reveal_strlit("git+");
    reveal_strlit("git:");
    reveal_strlit("github:");
    reveal_strlit("http:");
    reveal_strlit("https:");
    reveal_strlit("ssh:");
    assert(version[0] == "npm:"@[0]);
    assert forall|p: Seq<char>| p.is_prefix_of(version) && p.len() > 0 implies #[trigger] p[0]
        == 'n' by {
        assert(version.subrange(0, p.len() as int)[0] == p[0]);
    }
    assert("workspace:"@[0] == 'w');
    assert("patch:"@[0] == 'p');
    assert("portal:"@[0] == 'p');
    assert("link:"@[0] == 'l');
    assert("file:"@[0] == 'f');
    assert("catalog:"@[0] == 'c');
    assert("git+"@[0] == 'g');
    assert("git:"@[0] == 'g');
    assert("github:"@[0] == 'g');
    assert("http:"@[0] == 'h');
    assert("https:"@[0] == 'h');
    assert("ssh:"@[0] == 's');
}

proof fn lemma_alias_in_is_npm(resolutions: Seq<Dependency>, name: Seq<char>)
    ensures
        alias_in(resolutions, name) matches Some(d) ==> "npm:"@.is_prefix_of(d.version@),
    decreases resolutions.len(),
{
    if resolutions.len() > 0 {
        lemma_alias_in_is_npm(resolutions.drop_last(), name);
    }
}

proof fn lemma_resolution_alias_is_npm(manifests: Seq<packages::PackageJson>, name: Seq<char>)
    ensures
        resolution_alias(manifests, name) matches Some(d) ==> "npm:"@.is_prefix_of(d.version@),
    decreases manifests.len(),
{
    if manifests.len() > 0 {
        lemma_alias_in_is_npm(manifests.last().resolutions@, name);
        lemma_resolution_alias_is_npm(manifests.drop_last(), name);
    }
}

/// Nothing that is installed has a version of a non-registry protocol.
pub proof fn law_installed_from_registry(
    dependencies: Seq<Dependency>,
    own: Packages,
    corpus_internal: Seq<Seq<char>>,
)
    ensures
        forall|i: int|
            0 <= i < installed(dependencies, own, corpus_internal).len() ==> !non_registry(
                (#[trigger] installed(dependencies, own, corpus_internal)[i]).1,
            ),
    decreases dependencies.len(),
{
    if dependencies.len() > 0 {
        law_installed_from_registry(dependencies.drop_last(), own, corpus_internal);
        let before = installed(dependencies.drop_last(), own, corpus_internal);
        let after = installed(dependencies, own, corpus_internal);
        let d = dependencies.last();
        lemma_resolution_alias_is_npm(own.package_jsons@, d.name@);
        if let Some(alias) = resolution_alias(own.package_jsons@, d.name@) {
            lemma_npm_alias_is_registry(alias.version@);
        }
        assert forall|i: int| 0 <= i < after.len() implies !non_registry(
            (#[trigger] after[i]).1,
        ) by {
            if i < before.len() {
                assert(after[i] == before[i]);
            }
        }
    }
}

/// A package that the scanned corpus declares is never installed, whatever the
/// resolutions say of it.
pub proof fn law_internal_not_installed(
    dependencies: Seq<Dependency>,
    own: Packages,
    corpus_internal: Seq<Seq<char>>,
    name: Seq<char>,
)
    requires
        packages::declares(own, name) || text::among(name, corpus_internal),
    ensures
        forall|i: int|
            0 <= i < installed(dependencies, own, corpus_internal).len() ==> (
            #[trigger] installed(dependencies, own, corpus_internal)[i]).0 != name,
    decreases dependencies.len(),
{
    if dependencies.len() > 0 {
        law_internal_not_installed(dependencies.drop_last(), own, corpus_internal, name);
        let before = installed(dependencies.drop_last(), own, corpus_internal);
        let after = installed(dependencies, own, corpus_internal);
        assert forall|i: int| 0 <= i < after.len() implies (#[trigger] after[i]).0 != name by {
            if i < before.len() {
                assert(after[i] == before[i]);
            }
        }
    }
}

/// The manifests of a service: the structured ones, else what its serialized
/// manifest parses to.
pub open spec fn manifests_of(repo: CloudRepoData, parsed: Option<Packages>) -> Option<Packages> {
    match repo.packages {
        Some(p) => Some(p),
        None => parsed,
    }
}

/// Whether some service of the corpus declares the name.
pub open spec fn corpus_declares(
    repos: Seq<CloudRepoData>,
    parsed: Seq<Option<Packages>>,
    name: Seq<char>,
) -> bool {
    exists|i: int|
        0 <= i < repos.len() && #[trigger] declared_at(repos, parsed, name, i)
}

/// Whether the service at a position declares the name.
pub open spec fn declared_at(
    repos: Seq<CloudRepoData>,
    parsed: Seq<Option<Packages>>,
    name: Seq<char>,
    i: int,
) -> bool {
    match manifests_of(repos[i], parsed[i]) {
        Some(p) => packages::declares(p, name),
        None => false,
    }
}

fn extend_texts(names: &mut Vec<String>, more: &Vec<String>)
    ensures
        final(names).deep_view() == old(names).deep_view() + more.deep_view(),
{
    let ghost before = names.deep_view();
    let ghost added = more.deep_view();
    let mut i: usize = 0;
    assert(before + added.take(0) =~= before);
    while i < more.len()
        invariant
            i <= more@.len(),
            added == more.deep_view(),
            names.deep_view() == before + added.take(i as int),
        decreases more@.len() - i,
    {
        text::push_deep(names, more[i].clone());
        i += 1;
        assert(names.deep_view() =~= before + added.take(i as int));
    }
    assert(added.take(i as int) =~= added);
}

proof fn lemma_among_concat(name: Seq<char>, a: Seq<Seq<char>>, b: Seq<Seq<char>>)
    ensures
        text::among(name, a + b) == (text::among(name, a) || text::among(name, b)),
{
    let c = a + b;
    if text::among(name, a) {
        let i = choose|i: int| 0 <= i < a.len() && a[i] == name;
        assert(c[i] == name);
    }
    if text::among(name, b) {
        let i = choose|i: int| 0 <= i < b.len() && b[i] == name;
        assert(c[a.len() + i] == name);
    }
    if text::among(name, c) {
        let i = choose|i: int| 0 <= i < c.len() && c[i] == name;
        if i < a.len() {
            assert(a[i] == name);
        } else {
            assert(b[i - a.len()] == name);
        }
    }
}

/// The package names that some manifest of some service in the corpus
/// declares. `parsed` holds, for each service, what its serialized manifest
/// parses to; it is used where the service has no structured manifests.
pub fn corpus_internal_package_names(
    all_repo_data: &Vec<CloudRepoData>,
    parsed: &Vec<Option<Packages>>,
) -> (r: Vec<String>)
    requires
        all_repo_data@.len() == parsed@.len(),
    ensures
        forall|name: Seq<char>|
            #[trigger] text::among(name, r.deep_view()) <==> corpus_declares(
                all_repo_data@,
                parsed@,
                name,
            ),
{
    let mut names: Vec<String> = Vec::new();
    let mut i: usize = 0;
    while i < all_repo_data.len()
        invariant
            i <= all_repo_data@.len(),
            all_repo_data@.len() == parsed@.len(),
            forall|name: Seq<char>|
                #[trigger] text::among(name, names.deep_view()) <==> exists|k: int|
                    0 <= k < i && #[trigger] declared_at(all_repo_data@, parsed@, name, k),
        decreases all_repo_data@.len() - i,
    {
        let ghost before = names.deep_view();
        let found = match &all_repo_data[i].packages {
            Some(p) => Some(p),
            None => match &parsed[i] {
                Some(p) => Some(p),
                None => None,
            },
        };
        let ghost mut added: Seq<Seq<char>> = Seq::empty();
        if let Some(p) = found {
            let more = p.internal_package_names();
            extend_texts(&mut names, &more);
            proof {
                added = more.deep_view();
            }
        }
        assert(names.deep_view() =~= before + added);
        assert forall|name: Seq<char>| #[trigger] text::among(name, names.deep_view()) <==> exists|
            k: int,
        |
            0 <= k < i + 1 && #[trigger] declared_at(all_repo_data@, parsed@, name, k) by {
            lemma_among_concat(name, before, added);
            assert(text::among(name, added) == declared_at(
                all_repo_data@,
                parsed@,
                name,
                i as int,
            ));
            if text::among(name, before) {
                let k = choose|k: int|
                    0 <= k < i && #[trigger] declared_at(all_repo_data@, parsed@, name, k);
                assert(0 <= k < i + 1);
            }
        }
        i += 1;
    }
    names
}

// ---------------------------------------------------------------------------
// Installing
// ---------------------------------------------------------------------------

/// A specification without the full stops and commas at its end.
pub open spec fn without_punctuation(s: Seq<char>) -> Seq<char>
    decreases s.len(),
{
    if s.len() > 0 && (s.last() == '.' || s.last() == ',') {
        without_punctuation(s.drop_last())
    } else {
        s
    }
}

fn drop_punctuation(s: &str) -> (r: String)
    ensures
        r@ == without_punctuation(s@),
{
    let v = text::chars_of(s);
    let mut i: usize = v.len();
    assert(v@.take(i as int) =~= v@);
    while i > 0 && (v[i - 1] == '.' || v[i - 1] == ',')
        invariant
            i <= v@.len(),
            without_punctuation(v@) == without_punctuation(v@.take(i as int)),
        decreases i,
    {
        assert(v@.take(i as int).drop_last() =~= v@.take(i - 1));
        i -= 1;
    }
    let r = text::text_range(&v, 0, i);
    assert(r@ =~= v@.take(i as int));
    r
}

/// The package names in a list of captured specifications, each once, in the
/// order of their first mention.
pub open spec fn blamed_names(specs: Seq<Option<Seq<char>>>) -> Seq<Seq<char>>
    decreases specs.len(),
{
    if specs.len() == 0 {
        Seq::empty()
    } else {
        let before = blamed_names(specs.drop_last());
        match specs.last() {
            Some(spec) => {
                let name = bare_name_spec(without_punctuation(spec));
                if name.len() == 0 || text::among(name, before) {
                    before
                } else {
                    before.push(name)
                }
            },
            None => before,
        }
    }
}

/// The package names in a list of captured specifications.
pub fn names_in_specs(specs: &Vec<Option<String>>) -> (r: Vec<String>)
    ensures
        r.deep_view() == blamed_names(specs.deep_view()),
{
    let ghost s = specs.deep_view();
    let mut names: Vec<String> = Vec::new();
    assert(names.deep_view() =~= Seq::empty());
    let mut i: usize = 0;
    while i < specs.len()
        invariant
            i <= specs@.len(),
            s == specs.deep_view(),
            names.deep_view() == blamed_names(s.take(i as int)),
        decreases specs@.len() - i,
    {
        assert(s.take(i + 1).drop_last() =~= s.take(i as int));
        assert(s[i as int] == specs@[i as int].deep_view());
        if let Some(spec) = &specs[i] {
            let name = bare_name(&drop_punctuation(spec));
            if !name.as_str().is_empty() && !text::is_among(&name, &names) {
                text::push_deep(&mut names, name);
            }
        }
        i += 1;
    }
    assert(s.take(i as int) =~= s);
    names
}

/// The groups that a pattern captures; none where it does not compile.
pub open spec fn captured(pattern: Seq<char>, content: Seq<char>) -> Seq<Option<Seq<char>>> {
    match patterns::pattern_groups(pattern, content) {
        Some(groups) => groups,
        None => Seq::empty(),
    }
}

/// The package names that npm's own output blames for a failed installation:
/// those without a matching version first, then those not in the registry.
pub open spec fn npm_blames(stderr: Seq<char>) -> Seq<Seq<char>> {
    blamed_names(
        captured("No matching version found for\\s+(\\S+)"@, stderr) + captured(
            "'([^']+)'\\s+is not in this registry"@,
            stderr,
        ),
    )
}

/// The package names that npm's own output blames for a failed installation.
/// Any other kind of failure names none.
pub fn npm_unresolvable_packages(stderr: &str) -> (r: Vec<String>)
    ensures
        r.deep_view() == npm_blames(stderr@),
{
    let mut specs: Vec<Option<String>> = Vec::new();
    if let Some(groups) = patterns::first_groups(
        "No matching version found for\\s+(\\S+)",
        stderr,
    ) {
        specs = groups;
    }
    assert(specs.deep_view() =~= captured("No matching version found for\\s+(\\S+)"@, stderr@));
    let ghost first = specs@;
    if let Some(mut more) = patterns::first_groups(
        "'([^']+)'\\s+is not in this registry",
        stderr,
    ) {
        let ghost second = more@;
        specs.append(&mut more);
        assert(specs@ =~= first + second);
    }
    assert(specs.deep_view() =~= captured("No matching version found for\\s+(\\S+)"@, stderr@)
        + captured("'([^']+)'\\s+is not in this registry"@, stderr@));
    names_in_specs(&specs)
}

/// Whether a manifest key is one that npm blamed: its own name, or the target
/// of its `npm:` alias.
pub open spec fn is_blamed(dependency: Dependency, blamed: Seq<Seq<char>>) -> bool {
    ||| text::among(dependency.name@, blamed)
    ||| match text::strip_prefix_spec(dependency.version@, "npm:"@) {
        Some(target) => text::among(bare_name_spec(target), blamed),
        None => false,
    }
}

fn blames(dependency: &Dependency, blamed: &Vec<String>) -> (r: bool)
    ensures
        r == is_blamed(*dependency, blamed.deep_view()),
{
    if text::is_among(&dependency.name, blamed) {
        return true;
    }
    match text::strip_prefix(&dependency.version, "npm:") {
        Some(target) => text::is_among(&bare_name(&target), blamed),
        None => false,
    }
}

/// The names of the blamed dependencies, in the order of the manifest.
pub open spec fn blamed_keys(dependencies: Seq<Dependency>, blamed: Seq<Seq<char>>) -> Seq<String>
    decreases dependencies.len(),
{
    if dependencies.len() == 0 {
        Seq::empty()
    } else {
        let before = blamed_keys(dependencies.drop_last(), blamed);
        if is_blamed(dependencies.last(), blamed) {
            before.push(dependencies.last().name)
        } else {
            before
        }
    }
}

/// The manifest keys to be dropped for the packages that npm blamed, sorted.
pub fn unresolvable_manifest_keys(dependencies: &Vec<Dependency>, blamed: &Vec<String>) -> (r: Vec<
    String,
>)
    ensures
        r@ == sorting::sorted_by_key(blamed_keys(dependencies@, blamed.deep_view())),
        sorting::keys_ordered(r@),
{
    let mut keys: Vec<String> = Vec::new();
    let mut i: usize = 0;
    while i < dependencies.len()
        invariant
            i <= dependencies@.len(),
            keys@ == blamed_keys(dependencies@.take(i as int), blamed.deep_view()),
        decreases dependencies@.len() - i,
    {
        assert(dependencies@.take(i + 1).drop_last() =~= dependencies@.take(i as int));
        if blames(&dependencies[i], blamed) {
            keys.push(dependencies[i].name.clone());
        }
        i += 1;
    }
    assert(dependencies@.take(i as int) =~= dependencies@);
    sorting::sort_by_key(keys)
}

/// The last two thousand characters.
pub open spec fn tail_spec(s: Seq<char>) -> Seq<char> {
    if s.len() <= 2000 {
        s
    } else {
        s.skip(s.len() - 2000)
    }
}

/// The last two thousand characters of npm's error output.
pub fn stderr_tail(stderr: &str) -> (r: String)
    ensures
        r@ == tail_spec(stderr@),
{
    let v = text::chars_of(stderr);
    if v.len() <= 2000 {
        text::owned(stderr)
    } else {
        let r = text::text_range(&v, v.len() - 2000, v.len());
        assert(r@ =~= stderr@.skip(stderr@.len() - 2000));
        r
    }
}

/// How often an installation is tried again after dropping what npm blamed.
pub const MAX_INSTALL_DROP_ROUNDS: usize = 3;

/// Where the installation stands.
#[derive(Debug)]
pub struct InstallState {
    pub dependencies: Vec<Dependency>,
    pub dropped: Vec<String>,
    pub rounds_left: usize,
}

/// What is to be done after a failed installation.
#[derive(Debug)]
pub enum InstallStep {
    /// The manifest was reduced: install again.
    Retry(InstallState),
    /// Nothing helps: fail with this message.
    Fail(String),
}

impl InstallState {
    /// The state before the first attempt.
    pub fn start(dependencies: Vec<Dependency>) -> (r: Self)
        ensures
            r.dependencies == dependencies,
            r.dropped@.len() == 0,
            r.rounds_left == MAX_INSTALL_DROP_ROUNDS,
    {
        InstallState { dependencies, dropped: Vec::new(), rounds_left: MAX_INSTALL_DROP_ROUNDS }
    }
}

/// The dependencies whose names are not among the keys.
pub open spec fn without_keys(dependencies: Seq<Dependency>, keys: Seq<Seq<char>>) -> Seq<Dependency>
    decreases dependencies.len(),
{
    if dependencies.len() == 0 {
        Seq::empty()
    } else {
        let before = without_keys(dependencies.drop_last(), keys);
        if text::among(dependencies.last().name@, keys) {
            before
        } else {
            before.push(dependencies.last())
        }
    }
}

fn drop_keys(dependencies: &Vec<Dependency>, keys: &Vec<String>) -> (r: Vec<Dependency>)
    ensures
        r@ == without_keys(dependencies@, keys.deep_view()),
{
    let mut out: Vec<Dependency> = Vec::new();
    let mut i: usize = 0;
    while i < dependencies.len()
        invariant
            i <= dependencies@.len(),
            out@ == without_keys(dependencies@.take(i as int), keys.deep_view()),
        decreases dependencies@.len() - i,
    {
        assert(dependencies@.take(i + 1).drop_last() =~= dependencies@.take(i as int));
        if !text::is_among(&dependencies[i].name, keys) {
            out.push(dependencies[i].clone());
        }
        i += 1;
    }
    assert(dependencies@.take(i as int) =~= dependencies@);
    out
}

/// The message of a failed installation.
pub open spec fn install_failure(dropped: Seq<Seq<char>>, stderr: Seq<char>) -> Seq<char> {
    let history = if dropped.len() == 0 {
        ""@
    } else {
        " Dropped unresolvable dependencies before failing: "@ + text::join_spec(dropped, ", "@)
            + "."@
    };
    "npm install failed for the cross-repo type-check package — type checking cannot run. Set CARRICK_SKIP_NPM_INSTALL=1 to bypass (type checking will be skipped)."@
        + history + " npm stderr (tail):\n"@ + tail_spec(stderr)
}

/// What is to be done after a failed installation that blames the given
/// packages: drop the manifest keys that they stand for and try again, while
/// there are such keys and rounds left; else fail.
pub fn after_failed_install_blaming(
    state: InstallState,
    blamed: &Vec<String>,
    stderr: &str,
) -> (r: InstallStep)
    ensures
        ({
            let keys = sorting::sorted_by_key(
                blamed_keys(state.dependencies@, blamed.deep_view()),
            );
            let names = keys.map_values(|k: String| k@);
            if state.rounds_left > 0 && keys.len() > 0 {
                r matches InstallStep::Retry(next) && {
                    &&& next.dependencies@ == without_keys(state.dependencies@, names)
                    &&& next.dropped.deep_view() == state.dropped.deep_view() + names
                    &&& next.rounds_left == state.rounds_left - 1
                }
            } else {
                r matches InstallStep::Fail(message) && message@ == install_failure(
                    state.dropped.deep_view(),
                    stderr@,
                )
            }
        }),
{
    let keys = unresolvable_manifest_keys(&state.dependencies, blamed);
    assert(keys.deep_view() =~= keys@.map_values(|k: String| k@));
    if state.rounds_left > 0 && keys.len() > 0 {
        let dependencies = drop_keys(&state.dependencies, &keys);
        let mut dropped = state.dropped;
        extend_texts(&mut dropped, &keys);
        return InstallStep::Retry(
            InstallState { dependencies, dropped, rounds_left: state.rounds_left - 1 },
        );
    }
    let history = if state.dropped.len() == 0 {
        text::owned("")
    } else {
        text::cat3(
            " Dropped unresolvable dependencies before failing: ",
            &text::join(&state.dropped, ", "),
            ".",
        )
    };
    let tail = stderr_tail(stderr);
    InstallStep::Fail(
        text::cat4(
            "npm install failed for the cross-repo type-check package — type checking cannot run. Set CARRICK_SKIP_NPM_INSTALL=1 to bypass (type checking will be skipped).",
            &history,
            " npm stderr (tail):\n",
            &tail,
        ),
    )
}

/// What is to be done after a failed installation with this error output.
pub fn after_failed_install(state: InstallState, stderr: &str) -> (r: InstallStep)
    ensures
        ({
            let keys = sorting::sorted_by_key(
                blamed_keys(state.dependencies@, npm_blames(stderr@)),
            );
            let names = keys.map_values(|k: String| k@);
            if state.rounds_left > 0 && keys.len() > 0 {
                r matches InstallStep::Retry(next) && {
                    &&& next.dependencies@ == without_keys(state.dependencies@, names)
                    &&& next.dropped.deep_view() == state.dropped.deep_view() + names
                    &&& next.rounds_left == state.rounds_left - 1
                }
            } else {
                r matches InstallStep::Fail(message) && message@ == install_failure(
                    state.dropped.deep_view(),
                    stderr@,
                )
            }
        }),
{
    let blamed = npm_unresolvable_packages(stderr);
    after_failed_install_blaming(state, &blamed, stderr)
}

/// The dependencies with the compiler's own versions in place of any others.
pub open spec fn with_toolchain(dependencies: Seq<Dependency>) -> Seq<(Seq<char>, Seq<char>)> {
    without_keys(dependencies, seq!["typescript"@, "ts-node"@]).map_values(
        |d: Dependency| d.deep_view(),
    ).push(("typescript"@, "5.8.3"@)).push(("ts-node"@, "10.9.2"@))
}

/// Pins the compiler: its versions replace any that the repositories ask for.
pub fn pin_toolchain(dependencies: Vec<Dependency>) -> (r: Vec<Dependency>)
    ensures
        r.deep_view() == with_toolchain(dependencies@),
{
    let mut pinned: Vec<String> = Vec::new();
    text::push_deep(&mut pinned, text::owned("typescript"));
    text::push_deep(&mut pinned, text::owned("ts-node"));
    assert(pinned.deep_view() =~= seq!["typescript"@, "ts-node"@]);
    let mut out = drop_keys(&dependencies, &pinned);
    assert(out.deep_view() =~= without_keys(
        dependencies@,
        seq!["typescript"@, "ts-node"@],
    ).map_values(|d: Dependency| d.deep_view()));
    text::push_deep(
        &mut out,
        Dependency { name: text::owned("typescript"), version: text::owned("5.8.3") },
    );
    text::push_deep(
        &mut out,
        Dependency { name: text::owned("ts-node"), version: text::owned("10.9.2") },
    );
    out
}

proof fn lemma_without_keys(dependencies: Seq<Dependency>, keys: Seq<Seq<char>>)
    ensures
        forall|i: int|
            0 <= i < without_keys(dependencies, keys).len() ==> dependencies.contains(
                #[trigger] without_keys(dependencies, keys)[i],
            ) && !text::among(without_keys(dependencies, keys)[i].name@, keys),
        forall|d: Dependency|
            dependencies.contains(d) && !text::among(d.name@, keys) ==> #[trigger] without_keys(
                dependencies,
                keys,
            ).contains(d),
        without_keys(dependencies, keys).len() <= dependencies.len(),
    decreases dependencies.len(),
{
    if dependencies.len() > 0 {
        let front = dependencies.drop_last();
        lemma_without_keys(front, keys);
        let before = without_keys(front, keys);
        let after = without_keys(dependencies, keys);
        assert forall|i: int| 0 <= i < after.len() implies dependencies.contains(
            #[trigger] after[i],
        ) && !text::among(after[i].name@, keys) by {
            if i < before.len() {
                assert(after[i] == before[i]);
                let k = choose|k: int| 0 <= k < front.len() && front[k] == before[i];
                assert(dependencies[k] == after[i]);
            } else {
                assert(dependencies[dependencies.len() - 1] == after[i]);
            }
        }
        assert forall|d: Dependency|
            dependencies.contains(d) && !text::among(d.name@, keys) implies
            #[trigger] after.contains(d) by {
            let k = choose|k: int| 0 <= k < dependencies.len() && dependencies[k] == d;
            if k < front.len() {
                assert(front[k] == d);
                assert(before.contains(d));
                let j = choose|j: int| 0 <= j < before.len() && before[j] == d;
                assert(after[j] == d);
            } else {
                assert(after[after.len() - 1] == d);
            }
        }
    }
}

/// Dropping takes away exactly the dependencies with the given names: what
/// stays was there, nothing dropped stays, and nothing else is lost.
pub proof fn law_dropping_is_exact(
    dependencies: Seq<Dependency>,
    keys: Seq<Seq<char>>,
    d: Dependency,
)
    ensures
        without_keys(dependencies, keys).contains(d) == (dependencies.contains(d) && !text::among(
            d.name@,
            keys,
        )),
{
    lemma_without_keys(dependencies, keys);
    let kept = without_keys(dependencies, keys);
    if kept.contains(d) {
        let i = choose|i: int| 0 <= i < kept.len() && kept[i] == d;
        assert(dependencies.contains(kept[i]));
    }
}

} // verus!
