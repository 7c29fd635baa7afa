//! What holds of how a model's answers are read, and of what it is told.

use vstd::prelude::*;

use crate::env_alias::{ImportedSymbol, SymbolKind};
use crate::packages::{Dependency, PackageJson};
use crate::{framework_detector, gemini_service, text, text_laws, text_map};

verus! {

// ---------------------------------------------------------------------------
// Readings of an answer
// ---------------------------------------------------------------------------

proof fn lemma_begins_with(s: Seq<char>, p: Seq<char>, at: int)
    requires
        p.len() > 0,
        text::stands_at(s, p, at),
    ensures
        s[at] == p[0],
{
    assert(s.subrange(at, at + p.len())[0] == p[0]);
}

proof fn lemma_found(s: Seq<char>, p: Seq<char>, from: int, at: int)
    requires
        p.len() > 0,
        0 <= from <= at,
        text::stands_at(s, p, at),
        forall|j: int| from <= j < at ==> #[trigger] s[j] != p[0],
    ensures
        text::find_from(s, p, from) == Some(at),
{
    text::lemma_find_from(s, p, from);
    let i = text::find_from(s, p, from)->0;
    lemma_begins_with(s, p, i);
}

proof fn lemma_first_stand(before: Seq<char>, p: Seq<char>, after: Seq<char>, c: char)
    requires
        p.len() > 0,
        p[0] == c,
        !before.contains(c),
    ensures
        text::find_from(before + p + after, p, 0) == Some(before.len() as int),
{
    let s = before + p + after;
    let at = before.len() as int;
    assert(s.subrange(at, at + p.len()) =~= p);
    assert forall|j: int| 0 <= j < at implies #[trigger] s[j] != p[0] by {
        assert(s[j] == before[j]);
        assert(before.contains(before[j]));
    }
    lemma_found(s, p, 0, at);
}

proof fn lemma_next_stand(before: Seq<char>, body: Seq<char>, p: Seq<char>, after: Seq<char>, c: char)
    requires
        p.len() > 0,
        p[0] == c,
        !body.contains(c),
    ensures
        text::find_from(before + body + p + after, p, before.len() as int) == Some(
            (before.len() + body.len()) as int,
        ),
{
    let s = before + body + p + after;
    let at = (before.len() + body.len()) as int;
    assert(s.subrange(at, at + p.len()) =~= p);
    assert forall|j: int| before.len() <= j < at implies #[trigger] s[j] != p[0] by {
        assert(s[j] == body[j - before.len()]);
        assert(body.contains(body[j - before.len()]));
    }
    lemma_found(s, p, before.len() as int, at);
}

/// What is read of an answer with a block of JSON is what stands in the block,
/// without white space round it, whatever surrounds the block.
pub proof fn law_json_block(before: Seq<char>, body: Seq<char>, after: Seq<char>)
    requires
        !before.contains('`'),
        !body.contains('`'),
    ensures
        gemini_service::code_block(before + "```json"@ + body + "```"@ + after) == text::trim_spec(
            body,
        ),
{
    reveal_strlit("```json");
    reveal_strlit("```");
    let s = before + "```json"@ + body + "```"@ + after;
    let rest = body + "```"@ + after;
    assert(s =~= before + "```json"@ + rest);
    lemma_first_stand(before, "```json"@, rest, '`');
    let head = before + "```json"@;
    lemma_next_stand(head, body, "```"@, after, '`');
    assert(s =~= head + body + "```"@ + after);
    assert(s.subrange(head.len() as int, (head.len() + body.len()) as int) =~= body);
}

/// Without a block of JSON it is what stands in the first block.
pub proof fn law_plain_block(before: Seq<char>, body: Seq<char>, after: Seq<char>)
    requires
        !before.contains('`'),
        !body.contains('`'),
        !text::has_text(before + "```"@ + body + "```"@ + after, "```json"@),
    ensures
        gemini_service::code_block(before + "```"@ + body + "```"@ + after) == text::trim_spec(body),
{
    reveal_strlit("```");
    let s = before + "```"@ + body + "```"@ + after;
    text::lemma_find_from(s, "```json"@, 0);
    if text::find_from(s, "```json"@, 0) is Some {
        assert(text::stands_at(s, "```json"@, text::find_from(s, "```json"@, 0)->0));
    }
    let rest = body + "```"@ + after;
    assert(s =~= before + "```"@ + rest);
    lemma_first_stand(before, "```"@, rest, '`');
    let head = before + "```"@;
    lemma_next_stand(head, body, "```"@, after, '`');
    assert(s =~= head + body + "```"@ + after);
    assert(s.subrange(head.len() as int, (head.len() + body.len()) as int) =~= body);
}

/// An answer without a block is read as it stands.
pub proof fn law_no_block(s: Seq<char>)
    requires
        !s.contains('`'),
    ensures
        gemini_service::code_block(s) == s,
{
    reveal_strlit("```json");
    reveal_strlit("```");
    lemma_no_stand(s, "```json"@, '`');
    lemma_no_stand(s, "```"@, '`');
}

proof fn lemma_no_stand(s: Seq<char>, p: Seq<char>, c: char)
    requires
        p.len() > 0,
        p[0] == c,
        !s.contains(c),
    ensures
        text::find_from(s, p, 0) is None,
{
    text::lemma_find_from(s, p, 0);
    if text::find_from(s, p, 0) is Some {
        let i = text::find_from(s, p, 0)->0;
        assert(s.subrange(i, i + p.len())[0] == p[0]);
        assert(s.contains(s[i]));
    }
}

/// The array in an answer is what stands from its first opening bracket to its
/// last closing one.
pub proof fn law_bracketed(before: Seq<char>, body: Seq<char>, after: Seq<char>)
    requires
        !before.contains('['),
        !after.contains(']'),
    ensures
        gemini_service::bracketed(before + "["@ + body + "]"@ + after) == "["@ + body + "]"@,
{
    reveal_strlit("[");
    reveal_strlit("]");
    let s = before + "["@ + body + "]"@ + after;
    let array = "["@ + body + "]"@;
    text::lemma_first_index(s, '[');
    text::lemma_last_index(s, ']');
    let start = text::first_index(s, '[');
    let end = text::last_index(s, ']');
    assert(s[before.len() as int] == '[');
    let close = before.len() + 1 + body.len();
    assert(s[close as int] == ']');
    if start < before.len() {
        assert(before.contains(before[start]));
    }
    if end > close {
        assert(after[end - close - 1] == ']');
        assert(after.contains(after[end - close - 1]));
    }
    assert(s.subrange(start, end + 1) =~= array);
}

/// An answer without an array is read as an empty one.
pub proof fn law_no_brackets(s: Seq<char>)
    requires
        !s.contains('[') || !s.contains(']'),
    ensures
        gemini_service::bracketed(s) == "[]"@,
{
    text::lemma_first_index(s, '[');
    text::lemma_last_index(s, ']');
    let start = text::first_index(s, '[');
    let end = text::last_index(s, ']');
    if 0 <= start < s.len() {
        assert(s.contains(s[start]));
    }
    if 0 <= end < s.len() {
        assert(s.contains(s[end]));
    }
}

/// Whether a line is a comment or has nothing to read.
pub open spec fn says_nothing(line: Seq<char>) -> bool {
    let t = text::trim_spec(line);
    t.len() == 0 || (t.len() >= 2 && t[0] == '/' && t[1] == '/')
}

/// Blank lines and comments are left out wherever they stand; the other lines
/// follow each other without the white space round them.
pub proof fn law_cleaned(before: Seq<Seq<char>>, line: Seq<char>, after: Seq<Seq<char>>)
    ensures
        says_nothing(line) ==> gemini_service::cleaned(before.push(line) + after)
            == gemini_service::cleaned(before + after),
        !says_nothing(line) ==> gemini_service::cleaned(before.push(line))
            == gemini_service::cleaned(before) + text::trim_spec(line),
    decreases after.len(),
{
    reveal_strlit("//");
    let t = text::trim_spec(line);
    assert(("//"@.is_prefix_of(t)) == (t.len() >= 2 && t[0] == '/' && t[1] == '/')) by {
        if t.len() >= 2 && t[0] == '/' && t[1] == '/' {
            assert(t.subrange(0, 2) =~= "//"@);
        }
        if "//"@.is_prefix_of(t) {
            assert(t.subrange(0, 2)[0] == "//"@[0]);
            assert(t.subrange(0, 2)[1] == "//"@[1]);
        }
    }
    assert(before.push(line).drop_last() =~= before);
    let with = before.push(line) + after;
    let without = before + after;
    if after.len() == 0 {
        assert(with =~= before.push(line));
        assert(without =~= before);
    } else {
        law_cleaned(before, line, after.drop_last());
        assert(with.drop_last() =~= before.push(line) + after.drop_last());
        assert(without.drop_last() =~= before + after.drop_last());
        assert(with.last() == after.last() && without.last() == after.last());
    }
}

/// The answer as it stands is read first, then its block, then its array, then
/// its lines; white space round the answer does not matter.
pub proof fn law_order_of_readings(a: Seq<char>, s: Seq<char>, b: Seq<char>)
    requires
        text_laws::is_blank(a),
        text_laws::is_tight(s),
        text_laws::is_blank(b),
    ensures
        gemini_service::attempts(a + s + b).len() == 4,
        gemini_service::attempts(a + s + b)[0] == s,
        gemini_service::attempts(a + s + b)[1] == gemini_service::code_block(s),
        gemini_service::attempts(a + s + b)[2] == gemini_service::bracketed(s),
        gemini_service::attempts(a + s + b)[3] == gemini_service::cleaned(
            text::split_spec(s, '\n'),
        ),
{
    text_laws::law_trim(a, s, b);
}

// ---------------------------------------------------------------------------
// JSON objects
// ---------------------------------------------------------------------------

/// Whether a text is one object: its braces are balanced at its end and nowhere
/// before it.
pub open spec fn is_object(s: Seq<char>) -> bool {
    &&& s.len() >= 2
    &&& s[0] == '{'
    &&& s[s.len() - 1] == '}'
    &&& framework_detector::brace_depth(s) == 0
    &&& forall|i: int|
        0 < i < s.len() ==> framework_detector::brace_depth(#[trigger] s.take(i)) > 0
}

/// The depth goes up with an opening brace, down with a closing one, and stays
/// with anything else.
pub proof fn law_brace_depth(s: Seq<char>, c: char)
    ensures
        framework_detector::brace_depth(s.push(c)) == framework_detector::brace_depth(s) + (if c
            == '{' {
            1int
        } else if c == '}' {
            -1int
        } else {
            0int
        }),
        framework_detector::brace_depth(Seq::empty()) == 0,
{
    assert(s.push(c).drop_last() =~= s);
}

proof fn lemma_depth_behind(before: Seq<char>, s: Seq<char>)
    requires
        !before.contains('{'),
        !before.contains('}'),
    ensures
        framework_detector::brace_depth(before + s) == framework_detector::brace_depth(s),
    decreases before.len() + s.len(),
{
    if s.len() > 0 {
        assert((before + s).drop_last() =~= before + s.drop_last());
        lemma_depth_behind(before, s.drop_last());
    } else if before.len() > 0 {
        assert(before + s =~= before);
        let front = before.drop_last();
        assert(before.contains(before[before.len() - 1]));
        if front.contains('{') {
            let i = choose|i: int| 0 <= i < front.len() && front[i] == '{';
            assert(before[i] == '{');
        }
        if front.contains('}') {
            let i = choose|i: int| 0 <= i < front.len() && front[i] == '}';
            assert(before[i] == '}');
        }
        lemma_depth_behind(front, s);
        assert(front + s =~= front);
    } else {
        assert(before + s =~= s);
    }
}

/// An answer that is an object is read whole.
pub proof fn law_bare_object(a: Seq<char>, s: Seq<char>, b: Seq<char>)
    requires
        text_laws::is_blank(a),
        text_laws::is_blank(b),
        s.len() > 0,
        s[0] == '{',
        s[s.len() - 1] == '}',
    ensures
        framework_detector::response_json(a + s + b) == Ok::<Seq<char>, Seq<char>>(s),
{
    text_laws::law_trim(a, s, b);
}

/// The object in an answer is found behind and before any other words.
pub proof fn law_object_among_words(before: Seq<char>, object: Seq<char>, after: Seq<char>)
    requires
        before.len() > 0,
        !before.contains('{'),
        !before.contains('}'),
        is_object(object),
        text_laws::is_tight(before + object + after),
    ensures
        framework_detector::response_json(before + object + after) == Ok::<Seq<char>, Seq<char>>(
            object,
        ),
{
    let s = before + object + after;
    let none = Seq::<char>::empty();
    text_laws::law_trim(none, s, none);
    assert(none + s + none =~= s);
    assert(s[0] == before[0]);
    assert(before.contains(before[0]));
    assert(!framework_detector::is_bare_object(s));
    text::lemma_first_index(s, '{');
    let start = text::first_index(s, '{');
    assert(s[before.len() as int] == '{');
    if start < before.len() {
        assert(before.contains(before[start]));
    }
    assert(start == before.len());
    let end = before.len() + object.len() - 1;
    lemma_first_close(before, object, after, 0);
    assert(s.subrange(start, end + 1) =~= object);
}

proof fn lemma_first_close(
    before: Seq<char>,
    object: Seq<char>,
    after: Seq<char>,
    from: int,
)
    requires
        !before.contains('{'),
        !before.contains('}'),
        is_object(object),
        0 <= from <= before.len() + object.len() - 1,
        text::first_index(before + object + after, '{') == before.len(),
    ensures
        framework_detector::first_close(before + object + after, from) == Some(
            before.len() + object.len() - 1,
        ),
    decreases before.len() + object.len() - from,
{
    let s = before + object + after;
    let end = before.len() + object.len() - 1;
    if from < before.len() {
        assert(s[from] == before[from]);
        assert(before.contains(before[from]));
        lemma_first_close(before, object, after, from + 1);
    } else {
        let k = from - before.len() + 1;
        assert(s.take(from + 1) =~= before + object.take(k));
        lemma_depth_behind(before, object.take(k));
        if from == end {
            assert(object.take(k) =~= object);
            assert(s[from] == object[object.len() - 1]);
        } else {
            assert(framework_detector::brace_depth(object.take(k)) > 0);
            lemma_first_close(before, object, after, from + 1);
        }
    }
}

/// An answer without an opening brace has no object.
pub proof fn law_no_object(s: Seq<char>)
    requires
        text_laws::is_tight(s),
        !s.contains('{'),
    ensures
        framework_detector::response_json(s) is Err,
{
    let none = Seq::<char>::empty();
    text_laws::law_trim(none, s, none);
    assert(none + s + none =~= s);
    text::lemma_first_index(s, '{');
    let start = text::first_index(s, '{');
    if 0 <= start < s.len() {
        assert(s.contains(s[start]));
    }
    assert(s.contains(s[0]));
    lemma_never_closed(s, 0);
}

proof fn lemma_never_closed(s: Seq<char>, from: int)
    requires
        0 <= from <= s.len(),
        text::first_index(s, '{') >= s.len(),
    ensures
        framework_detector::first_close(s, from) is None,
    decreases s.len() - from,
{
    if from < s.len() {
        lemma_never_closed(s, from + 1);
    }
}

// ---------------------------------------------------------------------------
// What the model is told
// ---------------------------------------------------------------------------

/// Whether a dependency is the last of its name.
pub open spec fn is_last_named(dependencies: Seq<Dependency>, name: Seq<char>, i: int) -> bool {
    &&& 0 <= i < dependencies.len()
    &&& dependencies[i].name@ == name
    &&& forall|j: int| i < j < dependencies.len() ==> (#[trigger] dependencies[j]).name@ != name
}

/// Whether none of the dependencies has the name.
pub open spec fn none_named(dependencies: Seq<Dependency>, name: Seq<char>) -> bool {
    forall|j: int| 0 <= j < dependencies.len() ==> (#[trigger] dependencies[j]).name@ != name
}

proof fn lemma_with_dependencies(
    map: Map<Seq<char>, Seq<char>>,
    dependencies: Seq<Dependency>,
    name: Seq<char>,
)
    ensures
        forall|i: int| #[trigger]
            is_last_named(dependencies, name, i) ==> text_map::value_under(
                framework_detector::with_dependencies(map, dependencies),
                name,
            ) == Some(dependencies[i].version@),
        none_named(dependencies, name) ==> text_map::value_under(
            framework_detector::with_dependencies(map, dependencies),
            name,
        ) == text_map::value_under(map, name),
    decreases dependencies.len(),
{
    if dependencies.len() > 0 {
        let front = dependencies.drop_last();
        let n = dependencies.len() - 1;
        lemma_with_dependencies(map, front, name);
        assert forall|i: int| #[trigger]
            is_last_named(dependencies, name, i) implies text_map::value_under(
            framework_detector::with_dependencies(map, dependencies),
            name,
        ) == Some(dependencies[i].version@) by {
            if i < n {
                assert(dependencies[n].name@ != name);
                assert forall|j: int| i < j < front.len() implies (#[trigger] front[j]).name@
                    != name by {
                    assert(dependencies[j] == front[j]);
                }
                assert(is_last_named(front, name, i));
            }
        }
        if none_named(dependencies, name) {
            assert(dependencies[n].name@ != name);
            assert forall|j: int| 0 <= j < front.len() implies (#[trigger] front[j]).name@
                != name by {
                assert(dependencies[j] == front[j]);
            }
        }
    }
}

/// The version of a dependency is that of the last manifest that has it; the
/// dependencies and those for development are kept apart.
pub proof fn law_last_manifest_counts(
    manifests: Seq<PackageJson>,
    last: PackageJson,
    name: Seq<char>,
)
    ensures
        forall|i: int| #[trigger]
            is_last_named(last.dependencies@, name, i) ==> text_map::value_under(
                framework_detector::all_dependencies(manifests.push(last)),
                name,
            ) == Some(last.dependencies@[i].version@),
        none_named(last.dependencies@, name) ==> text_map::value_under(
            framework_detector::all_dependencies(manifests.push(last)),
            name,
        ) == text_map::value_under(framework_detector::all_dependencies(manifests), name),
        forall|i: int| #[trigger]
            is_last_named(last.dev_dependencies@, name, i) ==> text_map::value_under(
                framework_detector::all_dev_dependencies(manifests.push(last)),
                name,
            ) == Some(last.dev_dependencies@[i].version@),
        none_named(last.dev_dependencies@, name) ==> text_map::value_under(
            framework_detector::all_dev_dependencies(manifests.push(last)),
            name,
        ) == text_map::value_under(framework_detector::all_dev_dependencies(manifests), name),
{
    assert(manifests.push(last).drop_last() =~= manifests);
    lemma_with_dependencies(
        framework_detector::all_dependencies(manifests),
        last.dependencies@,
        name,
    );
    lemma_with_dependencies(
        framework_detector::all_dev_dependencies(manifests),
        last.dev_dependencies@,
        name,
    );
}

/// The local names of the symbols of a source and a kind, in their order.
pub open spec fn local_names(
    symbols: Seq<ImportedSymbol>,
    source: Seq<char>,
    kind: SymbolKind,
) -> Seq<Seq<char>> {
    symbols.filter(|s: ImportedSymbol| s.source@ == source && s.kind == kind).map_values(
        |s: ImportedSymbol| s.local_name@,
    )
}

proof fn lemma_imported_names(symbols: Seq<ImportedSymbol>, source: Seq<char>, kind: SymbolKind)
    ensures
        framework_detector::imported_names(symbols, source, kind) == local_names(
            symbols,
            source,
            kind,
        ),
    decreases symbols.len(),
{
    reveal(Seq::filter);
    let keep = |s: ImportedSymbol| s.source@ == source && s.kind == kind;
    let name = |s: ImportedSymbol| s.local_name@;
    if symbols.len() > 0 {
        let front = symbols.drop_last();
        lemma_imported_names(front, source, kind);
        let kept = front.filter(keep);
        if keep(symbols.last()) {
            assert(symbols.filter(keep) == kept.push(symbols.last()));
            assert(kept.push(symbols.last()).map_values(name) =~= kept.map_values(name).push(
                symbols.last().local_name@,
            ));
        }
    } else {
        assert(symbols.filter(keep).map_values(name) =~= Seq::empty());
    }
}

/// The statement for a source imports its default under the first name for it;
/// without a default all that is imported by name; without that the namespace.
pub proof fn law_import_statement(symbols: Seq<ImportedSymbol>, source: Seq<char>)
    ensures
        ({
            let r = framework_detector::import_statement(symbols, source);
            let defaults = local_names(symbols, source, SymbolKind::Default);
            let named = local_names(symbols, source, SymbolKind::Named);
            let namespaces = local_names(symbols, source, SymbolKind::Namespace);
            &&& defaults.len() > 0 ==> r == Some(
                "import "@ + defaults[0] + " from '"@ + source + "';"@,
            )
            &&& defaults.len() == 0 && named.len() > 0 ==> r == Some(
                "import { "@ + text::join_spec(named, ", "@) + " } from '"@ + source + "';"@,
            )
            &&& defaults.len() == 0 && named.len() == 0 && namespaces.len() > 0 ==> r == Some(
                "import * as "@ + namespaces[0] + " from '"@ + source + "';"@,
            )
            &&& defaults.len() == 0 && named.len() == 0 && namespaces.len() == 0 ==> r is None
        }),
{
    lemma_imported_names(symbols, source, SymbolKind::Default);
    lemma_imported_names(symbols, source, SymbolKind::Named);
    lemma_imported_names(symbols, source, SymbolKind::Namespace);
}

/// Every source of the symbols is listed once, and nothing else is.
pub proof fn law_sources(symbols: Seq<ImportedSymbol>)
    ensures
        framework_detector::sources_of(symbols).no_duplicates(),
        forall|source: Seq<char>| #[trigger]
            framework_detector::sources_of(symbols).contains(source) <==> exists|i: int|
                0 <= i < symbols.len() && (#[trigger] symbols[i]).source@ == source,
    decreases symbols.len(),
{
    let r = framework_detector::sources_of(symbols);
    if symbols.len() > 0 {
        let front = symbols.drop_last();
        let n = symbols.len() - 1;
        let before = framework_detector::sources_of(front);
        let last = symbols.last().source@;
        law_sources(front);
        assert forall|source: Seq<char>| #[trigger] r.contains(source) <==> exists|i: int|
            0 <= i < symbols.len() && (#[trigger] symbols[i]).source@ == source by {
            assert(before.contains(source) <==> exists|i: int|
                0 <= i < front.len() && (#[trigger] front[i]).source@ == source);
            if r.contains(source) {
                let k = choose|k: int| 0 <= k < r.len() && r[k] == source;
                if k < before.len() {
                    assert(before[k] == source);
                    assert(before.contains(source));
                    let i = choose|i: int|
                        0 <= i < front.len() && (#[trigger] front[i]).source@ == source;
                    assert(symbols[i] == front[i]);
                } else {
                    assert(symbols[n].source@ == source);
                }
            }
            if exists|i: int| 0 <= i < symbols.len() && (#[trigger] symbols[i]).source@ == source {
                let i = choose|i: int|
                    0 <= i < symbols.len() && (#[trigger] symbols[i]).source@ == source;
                if i < n {
                    assert(front[i].source@ == source);
                    let k = choose|k: int| 0 <= k < before.len() && before[k] == source;
                    assert(r[k] == source);
                } else if text::among(last, before) {
                    let k = choose|k: int| 0 <= k < before.len() && #[trigger] before[k] == last;
                    assert(r[k] == source);
                } else {
                    assert(r[before.len() as int] == source);
                }
            }
        }
        assert forall|i: int, j: int| 0 <= i < j < r.len() implies r[i] != r[j] by {
            if j == before.len() {
                assert(before[i] != last);
            }
        }
    }
}

} // verus!
