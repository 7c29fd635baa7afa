//! Framework detection: what is asked of the model, and what its answer says.

use vstd::prelude::*;

use crate::env_alias::{ImportedSymbol, SymbolKind};
use crate::packages::{Dependency, PackageJson, Packages};
use crate::text_map::TextMap;
use crate::text;

verus! {

/// The frameworks and libraries that a service was found to use.
#[derive(Clone, Debug)]
pub struct DetectionResult {
    pub frameworks: Vec<String>,
    pub data_fetchers: Vec<String>,
    pub messaging_clients: Vec<String>,
    pub notes: String,
}

/// The dependencies of all manifests together.
#[derive(Debug)]
pub struct PackageJsonSummary {
    pub dependencies: TextMap,
    pub dev_dependencies: TextMap,
}

/// What is asked of the model.
#[derive(Debug)]
pub struct FrameworkDetectionInput {
    pub package_json: PackageJsonSummary,
    pub imports: Vec<String>,
}

/// The detector, with the service that answers it.
pub struct FrameworkDetector<S> {
    pub agent_service: S,
}

// ---------------------------------------------------------------------------
// Dependencies
// ---------------------------------------------------------------------------

/// A map with dependencies put in, in their order.
pub open spec fn with_dependencies(
    map: Map<Seq<char>, Seq<char>>,
    dependencies: Seq<Dependency>,
) -> Map<Seq<char>, Seq<char>>
    decreases dependencies.len(),
{
    if dependencies.len() == 0 {
        map
    } else {
        with_dependencies(map, dependencies.drop_last()).insert(
            dependencies.last().name@,
            dependencies.last().version@,
        )
    }
}

/// The dependencies of all manifests, a later manifest over an earlier.
pub open spec fn all_dependencies(manifests: Seq<PackageJson>) -> Map<Seq<char>, Seq<char>>
    decreases manifests.len(),
{
    if manifests.len() == 0 {
        Map::empty()
    } else {
        with_dependencies(
            all_dependencies(manifests.drop_last()),
            manifests.last().dependencies@,
        )
    }
}

/// The development dependencies of all manifests, a later manifest over an
/// earlier.
pub open spec fn all_dev_dependencies(manifests: Seq<PackageJson>) -> Map<Seq<char>, Seq<char>>
    decreases manifests.len(),
{
    if manifests.len() == 0 {
        Map::empty()
    } else {
        with_dependencies(
            all_dev_dependencies(manifests.drop_last()),
            manifests.last().dev_dependencies@,
        )
    }
}

fn put_dependencies(map: &mut TextMap, dependencies: &Vec<Dependency>)
    requires
        old(map).well_formed(),
    ensures
        final(map).well_formed(),
        final(map)@ == with_dependencies(old(map)@, dependencies@),
{
    let ghost start = map@;
    let mut i: usize = 0;
    while i < dependencies.len()
        invariant
            i <= dependencies@.len(),
            map.well_formed(),
            map@ == with_dependencies(start, dependencies@.take(i as int)),
        decreases dependencies@.len() - i,
    {
        assert(dependencies@.take(i + 1).drop_last() =~= dependencies@.take(i as int));
        map.insert(dependencies[i].name.clone(), dependencies[i].version.clone());
        i += 1;
    }
    assert(dependencies@.take(i as int) =~= dependencies@);
}

// ---------------------------------------------------------------------------
// Imports
// ---------------------------------------------------------------------------

/// The sources of the symbols, each once, in the order in which they come up.
pub open spec fn sources_of(symbols: Seq<ImportedSymbol>) -> Seq<Seq<char>>
    decreases symbols.len(),
{
    if symbols.len() == 0 {
        Seq::empty()
    } else {
        let before = sources_of(symbols.drop_last());
        let source = symbols.last().source@;
        if text::among(source, before) {
            before
        } else {
            before.push(source)
        }
    }
}

/// The local names that are imported from a source in one way.
pub open spec fn imported_names(
    symbols: Seq<ImportedSymbol>,
    source: Seq<char>,
    kind: SymbolKind,
) -> Seq<Seq<char>>
    decreases symbols.len(),
{
    if symbols.len() == 0 {
        Seq::empty()
    } else {
        let before = imported_names(symbols.drop_last(), source, kind);
        let last = symbols.last();
        if last.source@ == source && last.kind == kind {
            before.push(last.local_name@)
        } else {
            before
        }
    }
}

/// The import statement for a source: of its first default import, else of all
/// its named imports, else of its first namespace import.
pub open spec fn import_statement(symbols: Seq<ImportedSymbol>, source: Seq<char>) -> Option<
    Seq<char>,
> {
    let defaults = imported_names(symbols, source, SymbolKind::Default);
    let named = imported_names(symbols, source, SymbolKind::Named);
    let namespaces = imported_names(symbols, source, SymbolKind::Namespace);
    if defaults.len() > 0 {
        Some("import "@ + defaults[0] + " from '"@ + source + "';"@)
    } else if named.len() > 0 {
        Some("import { "@ + text::join_spec(named, ", "@) + " } from '"@ + source + "';"@)
    } else if namespaces.len() > 0 {
        Some("import * as "@ + namespaces[0] + " from '"@ + source + "';"@)
    } else {
        None
    }
}

/// The import statements for a list of sources.
pub open spec fn import_statements(
    symbols: Seq<ImportedSymbol>,
    sources: Seq<Seq<char>>,
) -> Seq<Seq<char>>
    decreases sources.len(),
{
    if sources.len() == 0 {
        Seq::empty()
    } else {
        let before = import_statements(symbols, sources.drop_last());
        match import_statement(symbols, sources.last()) {
            Some(s) => before.push(s),
            None => before,
        }
    }
}

fn list_sources(symbols: &Vec<ImportedSymbol>) -> (r: Vec<String>)
    ensures
        r.deep_view() == sources_of(symbols@),
{
    let mut out: Vec<String> = Vec::new();
    assert(out.deep_view() =~= Seq::empty());
    let mut i: usize = 0;
    while i < symbols.len()
        invariant
            i <= symbols@.len(),
            out.deep_view() == sources_of(symbols@.take(i as int)),
        decreases symbols@.len() - i,
    {
        assert(symbols@.take(i + 1).drop_last() =~= symbols@.take(i as int));
        if !text::is_among(&symbols[i].source, &out) {
            text::push_deep(&mut out, symbols[i].source.clone());
        }
        i += 1;
    }
    assert(symbols@.take(i as int) =~= symbols@);
    out
}

fn list_names(symbols: &Vec<ImportedSymbol>, source: &str, kind: SymbolKind) -> (r: Vec<String>)
    ensures
        r.deep_view() == imported_names(symbols@, source@, kind),
{
    let mut out: Vec<String> = Vec::new();
    assert(out.deep_view() =~= Seq::empty());
    let mut i: usize = 0;
    while i < symbols.len()
        invariant
            i <= symbols@.len(),
            out.deep_view() == imported_names(symbols@.take(i as int), source@, kind),
        decreases symbols@.len() - i,
    {
        assert(symbols@.take(i + 1).drop_last() =~= symbols@.take(i as int));
        if text::same_text(&symbols[i].source, source) && symbols[i].kind == kind {
            text::push_deep(&mut out, symbols[i].local_name.clone());
        }
        i += 1;
    }
    assert(symbols@.take(i as int) =~= symbols@);
    out
}

fn make_import_statement(symbols: &Vec<ImportedSymbol>, source: &str) -> (r: Option<String>)
    ensures
        r.deep_view() == import_statement(symbols@, source@),
{
    let defaults = list_names(symbols, source, SymbolKind::Default);
    let named = list_names(symbols, source, SymbolKind::Named);
    let namespaces = list_names(symbols, source, SymbolKind::Namespace);
    if defaults.len() > 0 {
        assert(defaults.deep_view()[0] == defaults@[0]@);
        Some(text::cat5("import ", &defaults[0], " from '", source, "';"))
    } else if named.len() > 0 {
        Some(text::cat5("import { ", &text::join(&named, ", "), " } from '", source, "';"))
    } else if namespaces.len() > 0 {
        assert(namespaces.deep_view()[0] == namespaces@[0]@);
        Some(text::cat5("import * as ", &namespaces[0], " from '", source, "';"))
    } else {
        None
    }
}

// ---------------------------------------------------------------------------
// Answers
// ---------------------------------------------------------------------------

/// How many more braces were opened than closed.
pub open spec fn brace_depth(s: Seq<char>) -> int
    decreases s.len(),
{
    if s.len() == 0 {
        0
    } else {
        brace_depth(s.drop_last()) + if s.last() == '{' {
            1int
        } else if s.last() == '}' {
            -1int
        } else {
            0int
        }
    }
}

/// Whether the brace at a place closes what was opened before it.
pub open spec fn closes_at(s: Seq<char>, at: int) -> bool {
    s[at] == '}' && brace_depth(s.take(at + 1)) == 0 && text::first_index(s, '{') < at
}

/// The first place from `from` on at which all that was opened is closed.
pub open spec fn first_close(s: Seq<char>, from: int) -> Option<int>
    decreases s.len() - from,
{
    if from < 0 || from >= s.len() {
        None
    } else if closes_at(s, from) {
        Some(from)
    } else {
        first_close(s, from + 1)
    }
}

/// Whether a response is a JSON object from its first character to its last.
pub open spec fn is_bare_object(s: Seq<char>) -> bool {
    s.len() > 0 && s[0] == '{' && s.last() == '}'
}

/// The JSON object in a response, without white space around the response: the
/// whole of it, the first balanced object, or else whatever stands between the
/// first opening and the last closing brace.
pub open spec fn response_json(response: Seq<char>) -> Result<Seq<char>, Seq<char>> {
    let s = text::trim_spec(response);
    let start = text::first_index(s, '{');
    let end = text::last_index(s, '}');
    if is_bare_object(s) {
        Ok(s)
    } else if first_close(s, 0) is Some {
        Ok(s.subrange(start, first_close(s, 0)->0 + 1))
    } else if start >= s.len() {
        Err("No JSON object found in LLM response"@)
    } else if end < 0 {
        Err("Could not find valid JSON in LLM response"@)
    } else {
        Ok(s.subrange(start, end + 1))
    }
}

/// Whether a response has a JSON object or none, but no opening brace that
/// stands only behind the last closing one with more between them.
pub open spec fn has_bounds(response: Seq<char>) -> bool {
    let s = text::trim_spec(response);
    let start = text::first_index(s, '{');
    let end = text::last_index(s, '}');
    first_close(s, 0) is Some || start >= s.len() || end < 0 || start <= end + 1
}

proof fn lemma_first_close(s: Seq<char>, from: int)
    requires
        0 <= from,
    ensures
        first_close(s, from) matches Some(e) ==> from <= e < s.len() && closes_at(s, e),
    decreases s.len() - from,
{
    if from < s.len() && !closes_at(s, from) {
        lemma_first_close(s, from + 1);
    }
}

fn find_first_close(v: &Vec<char>) -> (r: Option<usize>)
    ensures
        match r {
            Some(e) => first_close(v@, 0) == Some(e as int),
            None => first_close(v@, 0) is None,
        },
{
    proof {
        text::lemma_first_index(v@, '{');
    }
    assert(v.len() <= usize::MAX);
    let mut depth: i128 = 0;
    let mut started = false;
    let mut i: usize = 0;
    assert(v@.take(0) =~= Seq::empty());
    while i < v.len()
        invariant
            i <= v@.len() <= usize::MAX,
            -(i as int) <= depth <= i,
            depth == brace_depth(v@.take(i as int)),
            started == (text::first_index(v@, '{') < i),
            text::first_index(v@, '{') < v@.len() ==> v@[text::first_index(v@, '{')] == '{',
            forall|k: int| 0 <= k < text::first_index(v@, '{') ==> v@[k] != '{',
            0 <= text::first_index(v@, '{') <= v@.len(),
            first_close(v@, 0) == first_close(v@, i as int),
        decreases v@.len() - i,
    {
        assert(v@.take(i + 1).drop_last() =~= v@.take(i as int));
        if v[i] == '{' {
            started = true;
            depth = depth + 1;
        } else if v[i] == '}' {
            depth = depth - 1;
            if depth == 0 && started {
                return Some(i);
            }
        }
        i += 1;
    }
    None
}

/// Whether a response can be searched for its JSON object.
pub fn json_has_bounds(response: &str) -> (r: bool)
    ensures
        r == has_bounds(response@),
{
    let trimmed = text::trim(response);
    let v = text::chars_of(&trimmed);
    proof {
        text::lemma_first_index(v@, '{');
        text::lemma_last_index(v@, '}');
    }
    if find_first_close(&v).is_some() {
        return true;
    }
    match (text::find_char(&v, '{'), text::rfind_char(&v, '}')) {
        (Some(start), Some(end)) => {
            assert(end < v.len());
            start <= end + 1
        },
        _ => true,
    }
}

impl<S> FrameworkDetector<S> {
    /// A detector that asks the service.
    pub fn new(agent_service: S) -> (r: Self)
        ensures
            r.agent_service == agent_service,
    {
        FrameworkDetector { agent_service }
    }

    /// The dependencies of all manifests together.
    pub fn extract_package_summary(&self, packages: &Packages) -> (r: PackageJsonSummary)
        ensures
            r.dependencies.well_formed(),
            r.dev_dependencies.well_formed(),
            r.dependencies@ == all_dependencies(packages.package_jsons@),
            r.dev_dependencies@ == all_dev_dependencies(packages.package_jsons@),
    {
        let manifests = &packages.package_jsons;
        let mut dependencies = TextMap::new();
        let mut dev_dependencies = TextMap::new();
        let mut i: usize = 0;
        while i < manifests.len()
            invariant
                i <= manifests@.len(),
                dependencies.well_formed(),
                dev_dependencies.well_formed(),
                dependencies@ == all_dependencies(manifests@.take(i as int)),
                dev_dependencies@ == all_dev_dependencies(manifests@.take(i as int)),
            decreases manifests@.len() - i,
        {
            assert(manifests@.take(i + 1).drop_last() =~= manifests@.take(i as int));
            put_dependencies(&mut dependencies, &manifests[i].dependencies);
            put_dependencies(&mut dev_dependencies, &manifests[i].dev_dependencies);
            i += 1;
        }
        assert(manifests@.take(i as int) =~= manifests@);
        PackageJsonSummary { dependencies, dev_dependencies }
    }

    /// One import statement for each source that symbols are imported from.
    pub fn extract_import_statements(&self, imported_symbols: &Vec<ImportedSymbol>) -> (r: Vec<
        String,
    >)
        ensures
            r.deep_view() == import_statements(imported_symbols@, sources_of(imported_symbols@)),
    {
        let sources = list_sources(imported_symbols);
        let ghost s = sources.deep_view();
        let mut out: Vec<String> = Vec::new();
        assert(out.deep_view() =~= Seq::empty());
        let mut i: usize = 0;
        while i < sources.len()
            invariant
                i <= sources@.len(),
                s == sources.deep_view(),
                out.deep_view() == import_statements(imported_symbols@, s.take(i as int)),
            decreases sources@.len() - i,
        {
            assert(s.take(i + 1).drop_last() =~= s.take(i as int));
            assert(s[i as int] == sources@[i as int]@);
            if let Some(statement) = make_import_statement(imported_symbols, &sources[i]) {
                text::push_deep(&mut out, statement);
            }
            i += 1;
        }
        assert(s.take(i as int) =~= s);
        out
    }

    /// What is asked of the model about a service.
    pub fn detection_input(
        &self,
        packages: &Packages,
        imported_symbols: &Vec<ImportedSymbol>,
    ) -> (r: FrameworkDetectionInput)
        ensures
            r.package_json.dependencies.well_formed(),
            r.package_json.dev_dependencies.well_formed(),
            r.package_json.dependencies@ == all_dependencies(packages.package_jsons@),
            r.package_json.dev_dependencies@ == all_dev_dependencies(packages.package_jsons@),
            r.imports.deep_view() == import_statements(
                imported_symbols@,
                sources_of(imported_symbols@),
            ),
    {
        FrameworkDetectionInput {
            package_json: self.extract_package_summary(packages),
            imports: self.extract_import_statements(imported_symbols),
        }
    }

    /// The JSON object in a response that may hold other text.
    pub fn extract_json_from_response(&self, response: &str) -> (r: Result<String, String>)
        requires
            has_bounds(response@),
        ensures
            match r {
                Ok(json) => response_json(response@) == Ok::<Seq<char>, Seq<char>>(json@),
                Err(message) => response_json(response@) == Err::<Seq<char>, Seq<char>>(message@),
            },
    {
        let trimmed = text::trim(response);
        let v = text::chars_of(&trimmed);
        proof {
            text::lemma_first_index(v@, '{');
            text::lemma_last_index(v@, '}');
            lemma_first_close(v@, 0);
        }
        if v.len() > 0 && v[0] == '{' && v[v.len() - 1] == '}' {
            return Ok(trimmed);
        }
        let first = text::find_char(&v, '{');
        if let Some(end) = find_first_close(&v) {
            if let Some(start) = first {
                assert(end < v.len());
                return Ok(text::text_range(&v, start, end + 1));
            }
        }
        match first {
            Some(start) => match text::rfind_char(&v, '}') {
                Some(end) => {
                    assert(end < v.len());
                    Ok(text::text_range(&v, start, end + 1))
                },
                None => Err(text::owned("Could not find valid JSON in LLM response")),
            },
            None => Err(text::owned("No JSON object found in LLM response")),
        }
    }
}

/// What is extracted is the response's own text, and begins with a brace
/// wherever it is not empty.
pub proof fn law_extracted_json_begins_with_a_brace(response: Seq<char>)
    requires
        has_bounds(response),
        response_json(response) is Ok,
        response_json(response)->Ok_0.len() > 0,
    ensures
        response_json(response)->Ok_0[0] == '{',
        text::has_text(text::trim_spec(response), response_json(response)->Ok_0),
{
    let s = text::trim_spec(response);
    text::lemma_first_index(s, '{');
    text::lemma_last_index(s, '}');
    lemma_first_close(s, 0);
    let json = response_json(response)->Ok_0;
    let start = if is_bare_object(s) {
        0int
    } else {
        text::first_index(s, '{')
    };
    assert(json =~= s.subrange(start, start + json.len()));
    assert(text::stands_at(s, json, start));
    text::lemma_find_from(s, json, 0);
}

} // verus!
