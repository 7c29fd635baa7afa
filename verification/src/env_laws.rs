//! What holds of the names that stand for environment variables.

use vstd::prelude::*;

use crate::ast::{
    BinaryOp, Declarator, Export, ExportName, ExportSpecifier, Expr, MemberProp, ObjectProp, Pattern,
};
use crate::env_alias::{EnvAliasMap, ImportedSymbol, SymbolKind};
use crate::{env_alias, protocol, text, text_map};

verus! {

// ---------------------------------------------------------------------------
// Expressions
// ---------------------------------------------------------------------------

/// The default of `a ?? b` and of `a || b` does not matter: what is read is what
/// `a` reads, whatever stands on the right.
pub proof fn law_default_is_not_read(op: BinaryOp, a: Expr, b: Expr, c: Expr)
    requires
        op == BinaryOp::NullishCoalescing || op == BinaryOp::LogicalOr,
    ensures
        env_alias::env_read(Expr::Binary { op, left: Box::new(a), right: Box::new(b) })
            == env_alias::env_read(a),
        env_alias::env_read(Expr::Binary { op, left: Box::new(a), right: Box::new(b) })
            == env_alias::env_read(Expr::Binary { op, left: Box::new(a), right: Box::new(c) }),
{
}

/// `process.env.NAME` and `process.env["NAME"]` read the variable `NAME`.
pub proof fn law_direct_read(process: String, env: String, name: String)
    requires
        process@ == "process"@,
        env@ == "env"@,
    ensures
        ({
            let object = Expr::Member {
                object: Box::new(Expr::Ident(process)),
                prop: MemberProp::Ident(env),
            };
            &&& env_alias::env_read(
                Expr::Member { object: Box::new(object), prop: MemberProp::Ident(name) },
            ) == Some(name@)
            &&& env_alias::env_read(
                Expr::Member { object: Box::new(object), prop: MemberProp::Str(name) },
            ) == Some(name@)
        }),
{
}

/// Only a property of `process.env` is a variable.
pub proof fn law_only_process_env(object: Expr, prop: MemberProp)
    requires
        env_alias::env_read(Expr::Member { object: Box::new(object), prop }) is Some,
    ensures
        object matches Expr::Member { object: o, prop: p } && (*o matches Expr::Ident(s) && s@
            == "process"@) && (p matches MemberProp::Ident(s) && s@ == "env"@),
        !(prop is Other),
{
}

/// Parentheses, an assertion and a cast do not change what is read.
pub proof fn law_wrappers_are_read_through(e: Expr)
    ensures
        env_alias::env_read(Expr::Paren(Box::new(e))) == env_alias::env_read(e),
        env_alias::env_read(Expr::TsNonNull(Box::new(e))) == env_alias::env_read(e),
        env_alias::env_read(Expr::TsAs(Box::new(e))) == env_alias::env_read(e),
{
}

/// Whatever has another form reads nothing.
pub proof fn law_other_expressions_read_nothing(e: Expr)
    requires
        !(e is Member),
        !(e is Paren),
        !(e is TsNonNull),
        !(e is TsAs),
        e matches Expr::Binary { op, .. } ==> op == BinaryOp::Other,
    ensures
        env_alias::env_read(e) is None,
{
}

/// Whether an expression only wraps another.
pub open spec fn is_wrapper(e: Expr) -> bool {
    e is Paren || e is TsAs || e is TsConstAssertion || e is TsSatisfies || e is TsNonNull
}

/// Unwrapping takes off every wrapper and nothing else.
pub proof fn law_unwrapping(e: Expr)
    ensures
        env_alias::unwrapped(Expr::Paren(Box::new(e))) == env_alias::unwrapped(e),
        env_alias::unwrapped(Expr::TsAs(Box::new(e))) == env_alias::unwrapped(e),
        env_alias::unwrapped(Expr::TsConstAssertion(Box::new(e))) == env_alias::unwrapped(e),
        env_alias::unwrapped(Expr::TsSatisfies(Box::new(e))) == env_alias::unwrapped(e),
        env_alias::unwrapped(Expr::TsNonNull(Box::new(e))) == env_alias::unwrapped(e),
        !is_wrapper(e) ==> env_alias::unwrapped(e) == e,
        !is_wrapper(env_alias::unwrapped(e)),
    decreases e,
{
    match e {
        Expr::Paren(inner) => law_unwrapping(*inner),
        Expr::TsAs(inner) => law_unwrapping(*inner),
        Expr::TsConstAssertion(inner) => law_unwrapping(*inner),
        Expr::TsSatisfies(inner) => law_unwrapping(*inner),
        Expr::TsNonNull(inner) => law_unwrapping(*inner),
        _ => {},
    }
}

// ---------------------------------------------------------------------------
// Objects and declarations
// ---------------------------------------------------------------------------

/// Whether a property gives a name to a variable: its value reads the variable,
/// or names an alias of it that is known.
pub open spec fn gives(
    prop: ObjectProp,
    known: Map<Seq<char>, Seq<char>>,
    name: Seq<char>,
    variable: Seq<char>,
) -> bool {
    match prop {
        ObjectProp::KeyValue { name: n, value } => n@ == name && {
            ||| env_alias::env_read(value) == Some(variable)
            ||| env_alias::env_read(value) is None && (env_alias::unwrapped(
                value,
            ) matches Expr::Ident(s) && known.contains_key(s@) && known[s@] == variable)
        },
        ObjectProp::Shorthand(s) => s@ == name && known.contains_key(s@) && known[s@] == variable,
        ObjectProp::Other => false,
    }
}

/// Whether a property is the last that gives the name to a variable.
pub open spec fn gives_last(
    props: Seq<ObjectProp>,
    known: Map<Seq<char>, Seq<char>>,
    i: int,
    name: Seq<char>,
    variable: Seq<char>,
) -> bool {
    &&& 0 <= i < props.len()
    &&& gives(props[i], known, name, variable)
    &&& forall|j: int, v: Seq<char>|
        i < j < props.len() ==> !#[trigger] gives(props[j], known, name, v)
}

/// Whether no property gives the name to a variable.
pub open spec fn gives_none(
    props: Seq<ObjectProp>,
    known: Map<Seq<char>, Seq<char>>,
    name: Seq<char>,
) -> bool {
    forall|j: int, v: Seq<char>|
        0 <= j < props.len() ==> !#[trigger] gives(props[j], known, name, v)
}

proof fn lemma_dotted(a: Seq<char>, b: Seq<char>, c: Seq<char>)
    ensures
        a + "."@ + b == a + "."@ + c ==> b == c,
        a + "."@ + b != a,
        (a + "."@).is_prefix_of(a + "."@ + b),
        (a + "."@ + b).skip(a.len() as int + 1) == b,
{
    reveal_strlit(".");
    let x = a + "."@ + b;
    let y = a + "."@ + c;
    assert(x.skip(a.len() as int + 1) =~= b);
    assert(y.skip(a.len() as int + 1) =~= c);
    assert(x.len() == a.len() + 1 + b.len());
    assert(a + "."@ =~= x.subrange(0, a.len() as int + 1));
}

/// Of the properties of an object that give one name, the last one counts; what
/// no property gives stays as it was.
pub proof fn law_last_property_counts(
    map: Map<Seq<char>, Seq<char>>,
    name: Seq<char>,
    props: Seq<ObjectProp>,
    known: Map<Seq<char>, Seq<char>>,
)
    ensures
        forall|i: int, p: Seq<char>, v: Seq<char>| #[trigger]
            gives_last(props, known, i, p, v) ==> text_map::value_under(
                env_alias::with_props(map, name, props, known),
                name + "."@ + p,
            ) == Some(v),
        forall|p: Seq<char>| #[trigger]
            gives_none(props, known, p) ==> text_map::value_under(
                env_alias::with_props(map, name, props, known),
                name + "."@ + p,
            ) == text_map::value_under(map, name + "."@ + p),
        forall|key: Seq<char>|
            !(name + "."@).is_prefix_of(key) ==> #[trigger] text_map::value_under(
                env_alias::with_props(map, name, props, known),
                key,
            ) == text_map::value_under(map, key),
    decreases props.len(),
{
    let after = env_alias::with_props(map, name, props, known);
    if props.len() > 0 {
        let front = props.drop_last();
        let n = props.len() - 1;
        let before = env_alias::with_props(map, name, front, known);
        law_last_property_counts(map, name, front, known);
        let found = env_alias::prop_alias(props.last(), known);
        assert forall|i: int, p: Seq<char>, v: Seq<char>| #[trigger]
            gives_last(props, known, i, p, v) implies text_map::value_under(after, name + "."@ + p)
            == Some(v) by {
            if i < n {
                if found is Some {
                    let (q, w) = found->0;
                    assert(gives(props[n], known, q, w));
                    lemma_dotted(name, p, q);
                }
                assert forall|j: int, w: Seq<char>| i < j < front.len() implies !#[trigger] gives(
                    front[j],
                    known,
                    p,
                    w,
                ) by {
                    assert(!gives(props[j], known, p, w));
                }
                assert(gives_last(front, known, i, p, v));
            } else {
                assert(found == Some((p, v)));
            }
        }
        assert forall|p: Seq<char>| #[trigger]
            gives_none(props, known, p) implies text_map::value_under(after, name + "."@ + p)
            == text_map::value_under(map, name + "."@ + p) by {
            if found is Some {
                let (q, w) = found->0;
                assert(gives(props[n], known, q, w));
                lemma_dotted(name, p, q);
            }
            assert forall|j: int, w: Seq<char>| 0 <= j < front.len() implies !#[trigger] gives(
                front[j],
                known,
                p,
                w,
            ) by {
                assert(!gives(props[j], known, p, w));
            }
            assert(gives_none(front, known, p));
        }
        assert forall|key: Seq<char>|
            !(name + "."@).is_prefix_of(key) implies #[trigger] text_map::value_under(after, key)
            == text_map::value_under(map, key) by {
            assert(text_map::value_under(before, key) == text_map::value_under(map, key));
            if found is Some {
                let (q, w) = found->0;
                lemma_dotted(name, q, q);
            }
        }
    }
}

/// A declaration of a name that reads a variable gives the name to it, over
/// whatever the name stood for before, and touches no other name.
pub proof fn law_declared_read(
    ds: Seq<Declarator>,
    d: Declarator,
    name: String,
    init: Expr,
    key: Seq<char>,
)
    requires
        d.pattern == Pattern::Ident(name),
        d.init == Some(init),
        env_alias::env_read(init) is Some,
    ensures
        text_map::value_under(env_alias::declared_aliases(ds.push(d)), name@)
            == env_alias::env_read(init),
        key != name@ ==> text_map::value_under(env_alias::declared_aliases(ds.push(d)), key)
            == text_map::value_under(env_alias::declared_aliases(ds), key),
{
    assert(ds.push(d).drop_last() =~= ds);
}

/// A declaration of a name for an object gives the object's properties to
/// variables, under the name and a dot; an alias in the object is one that was
/// declared before. It touches no other name.
pub proof fn law_declared_object(
    ds: Seq<Declarator>,
    d: Declarator,
    name: String,
    init: Expr,
    props: Vec<ObjectProp>,
)
    requires
        d.pattern == Pattern::Ident(name),
        d.init == Some(init),
        env_alias::env_read(init) is None,
        env_alias::unwrapped(init) == Expr::Object(props),
    ensures
        ({
            let before = env_alias::declared_aliases(ds);
            let after = env_alias::declared_aliases(ds.push(d));
            &&& forall|i: int, p: Seq<char>, v: Seq<char>| #[trigger]
                gives_last(props@, before, i, p, v) ==> text_map::value_under(
                    after,
                    name@ + "."@ + p,
                ) == Some(v)
            &&& forall|p: Seq<char>| #[trigger]
                gives_none(props@, before, p) ==> text_map::value_under(after, name@ + "."@ + p)
                    == text_map::value_under(before, name@ + "."@ + p)
            &&& forall|key: Seq<char>|
                !(name@ + "."@).is_prefix_of(key) ==> #[trigger] text_map::value_under(after, key)
                    == text_map::value_under(before, key)
        }),
{
    assert(ds.push(d).drop_last() =~= ds);
    let before = env_alias::declared_aliases(ds);
    law_last_property_counts(before, name@, props@, before);
}

/// A declaration that binds no plain name, has no value, or whose value neither
/// reads a variable nor is an object, gives no name.
pub proof fn law_other_declarations(ds: Seq<Declarator>, d: Declarator)
    requires
        d.pattern is Ident ==> match d.init {
            Some(init) => env_alias::env_read(init) is None && !(env_alias::unwrapped(
                init,
            ) is Object),
            None => true,
        },
    ensures
        env_alias::declared_aliases(ds.push(d)) == env_alias::declared_aliases(ds),
{
    assert(ds.push(d).drop_last() =~= ds);
}

// ---------------------------------------------------------------------------
// Exports
// ---------------------------------------------------------------------------

/// Whether a name stands for a variable because `to` is another name for `from`:
/// it is the name itself, or a property of it.
pub open spec fn shows(
    map: Map<Seq<char>, Seq<char>>,
    from: Seq<char>,
    to: Seq<char>,
    key: Seq<char>,
    variable: Seq<char>,
) -> bool {
    ||| key == to && text_map::value_under(map, from) == Some(variable)
    ||| exists|suffix: Seq<char>|
        key == to + "."@ + suffix && #[trigger] text_map::value_under(map, from + "."@ + suffix)
            == Some(variable)
}

proof fn lemma_renamed(map: Map<Seq<char>, Seq<char>>, from: Seq<char>, to: Seq<char>)
    ensures
        forall|key: Seq<char>, v: Seq<char>| #[trigger]
            shows(map, from, to, key, v) <==> text_map::value_under(
                env_alias::renamed(map, from, to),
                key,
            ) == Some(v),
{
    reveal_strlit(".");
    let r = env_alias::renamed(map, from, to);
    assert forall|key: Seq<char>, v: Seq<char>| #[trigger]
        shows(map, from, to, key, v) <==> text_map::value_under(r, key) == Some(v) by {
        if shows(map, from, to, key, v) {
            if !(key == to && text_map::value_under(map, from) == Some(v)) {
                let suffix = choose|suffix: Seq<char>|
                    key == to + "."@ + suffix && #[trigger] text_map::value_under(
                        map,
                        from + "."@ + suffix,
                    ) == Some(v);
                lemma_dotted(to, suffix, suffix);
                assert(env_alias::source_name(key, from, to) == Some(from + "."@ + suffix));
            } else {
                assert(env_alias::source_name(key, from, to) == Some(from));
            }
        }
        if text_map::value_under(r, key) == Some(v) {
            if key != to {
                let suffix = key.skip(to.len() as int + 1);
                assert(key =~= to + "."@ + suffix);
                assert(text_map::value_under(map, from + "."@ + suffix) == Some(v));
            }
        }
    }
}

/// The name and its properties are known under the other name, and nothing else
/// is.
pub proof fn law_renaming(
    map: Map<Seq<char>, Seq<char>>,
    from: Seq<char>,
    to: Seq<char>,
    suffix: Seq<char>,
    key: Seq<char>,
)
    ensures
        text_map::value_under(env_alias::renamed(map, from, to), to) == text_map::value_under(
            map,
            from,
        ),
        text_map::value_under(env_alias::renamed(map, from, to), to + "."@ + suffix)
            == text_map::value_under(map, from + "."@ + suffix),
        key != to && !(to + "."@).is_prefix_of(key) ==> text_map::value_under(
            env_alias::renamed(map, from, to),
            key,
        ) is None,
{
    lemma_dotted(to, suffix, suffix);
}

/// Whether an export shows a local name under an exported one.
pub open spec fn exports_as(export: Export, exported: Seq<char>, local: Seq<char>) -> bool {
    match export {
        Export::Declaration(patterns) => exported == local && exists|i: int|
            0 <= i < patterns@.len() && ((#[trigger] patterns@[i]) matches Pattern::Ident(s) && s@
                == local),
        Export::Named { specifiers, has_source } => !has_source && exists|i: int|
            0 <= i < specifiers@.len() && lists(#[trigger] specifiers@[i], exported, local),
        Export::Default(e) => exported == "default"@ && (env_alias::unwrapped(
            e,
        ) matches Expr::Ident(s) && s@ == local),
        Export::Other => false,
    }
}

/// Whether an entry of an export list shows a local name under an exported one.
pub open spec fn lists(
    specifier: ExportSpecifier,
    exported: Seq<char>,
    local: Seq<char>,
) -> bool {
    match specifier {
        ExportSpecifier::Named { local: ExportName::Ident(l), exported: None } => l@ == local
            && exported == local,
        ExportSpecifier::Named { local: ExportName::Ident(l), exported: Some(name) } => l@ == local
            && match name {
            ExportName::Ident(s) => s@ == exported,
            ExportName::Str(s) => s@ == exported,
        },
        _ => false,
    }
}

/// Whether one of the exports shows a local name under an exported one.
pub open spec fn is_exported(
    exports: Seq<Export>,
    exported: Seq<char>,
    local: Seq<char>,
) -> bool {
    exists|k: int| 0 <= k < exports.len() && exports_as(#[trigger] exports[k], exported, local)
}

/// Whether a property of a default export gives the name to a variable.
pub open spec fn is_default_property(
    exports: Seq<Export>,
    locals: Map<Seq<char>, Seq<char>>,
    name: Seq<char>,
    variable: Seq<char>,
) -> bool {
    exists|k: int|
        0 <= k < exports.len() && default_gives(#[trigger] exports[k], locals, name, variable)
}

/// Whether an export is the default export of an object with a property that
/// gives the name to a variable.
pub open spec fn default_gives(
    export: Export,
    locals: Map<Seq<char>, Seq<char>>,
    name: Seq<char>,
    variable: Seq<char>,
) -> bool {
    export matches Export::Default(e) && (env_alias::unwrapped(e) matches Expr::Object(props)
        && exists|i: int|
        0 <= i < props@.len() && gives(#[trigger] props@[i], locals, name, variable))
}

proof fn lemma_declared_pairs(patterns: Seq<Pattern>)
    ensures
        forall|e: Seq<char>, l: Seq<char>| #[trigger]
            env_alias::declared_pairs(patterns).contains((e, l)) <==> e == l && exists|i: int|
                0 <= i < patterns.len() && ((#[trigger] patterns[i]) matches Pattern::Ident(s) && s@
                    == l),
    decreases patterns.len(),
{
    let r = env_alias::declared_pairs(patterns);
    if patterns.len() > 0 {
        let front = patterns.drop_last();
        let n = patterns.len() - 1;
        lemma_declared_pairs(front);
        let before = env_alias::declared_pairs(front);
        assert forall|e: Seq<char>, l: Seq<char>| #[trigger] r.contains((e, l)) <==> e == l
            && exists|i: int|
            0 <= i < patterns.len() && ((#[trigger] patterns[i]) matches Pattern::Ident(s) && s@
                == l) by {
            if r.contains((e, l)) {
                let k = choose|k: int| 0 <= k < r.len() && r[k] == (e, l);
                if k < before.len() {
                    assert(before[k] == (e, l));
                    assert(before.contains((e, l)));
                    let i = choose|i: int|
                        0 <= i < front.len() && ((#[trigger] front[i]) matches Pattern::Ident(s)
                            && s@ == l);
                    assert(patterns[i] == front[i]);
                } else {
                    assert(patterns[n] == patterns.last());
                }
            }
            if e == l && exists|i: int|
                0 <= i < patterns.len() && ((#[trigger] patterns[i]) matches Pattern::Ident(s) && s@
                    == l) {
                let i = choose|i: int|
                    0 <= i < patterns.len() && ((#[trigger] patterns[i]) matches Pattern::Ident(s)
                        && s@ == l);
                if i < n {
                    assert(front[i] == patterns[i]);
                    assert(before.contains((e, l)));
                    let k = choose|k: int| 0 <= k < before.len() && before[k] == (e, l);
                    assert(r[k] == (e, l));
                } else {
                    assert(r[before.len() as int] == (e, l));
                }
            }
        }
    }
}

proof fn lemma_listed_pairs(specifiers: Seq<ExportSpecifier>)
    ensures
        forall|e: Seq<char>, l: Seq<char>| #[trigger]
            env_alias::listed_pairs(specifiers).contains((e, l)) <==> exists|i: int|
                0 <= i < specifiers.len() && lists(#[trigger] specifiers[i], e, l),
    decreases specifiers.len(),
{
    let r = env_alias::listed_pairs(specifiers);
    if specifiers.len() > 0 {
        let front = specifiers.drop_last();
        let n = specifiers.len() - 1;
        lemma_listed_pairs(front);
        let before = env_alias::listed_pairs(front);
        assert forall|e: Seq<char>, l: Seq<char>| #[trigger] r.contains((e, l)) <==> exists|i: int|
            0 <= i < specifiers.len() && lists(#[trigger] specifiers[i], e, l) by {
            if r.contains((e, l)) {
                let k = choose|k: int| 0 <= k < r.len() && r[k] == (e, l);
                if k < before.len() {
                    assert(before[k] == (e, l));
                    assert(before.contains((e, l)));
                    let i = choose|i: int| 0 <= i < front.len() && lists(#[trigger] front[i], e, l);
                    assert(specifiers[i] == front[i]);
                } else {
                    assert(lists(specifiers[n], e, l));
                }
            }
            if exists|i: int| 0 <= i < specifiers.len() && lists(#[trigger] specifiers[i], e, l) {
                let i = choose|i: int|
                    0 <= i < specifiers.len() && lists(#[trigger] specifiers[i], e, l);
                if i < n {
                    assert(front[i] == specifiers[i]);
                    assert(before.contains((e, l)));
                    let k = choose|k: int| 0 <= k < before.len() && before[k] == (e, l);
                    assert(r[k] == (e, l));
                } else {
                    assert(r[before.len() as int] == (e, l));
                }
            }
        }
    }
}

proof fn lemma_export_pairs(exports: Seq<Export>)
    ensures
        forall|e: Seq<char>, l: Seq<char>| #[trigger]
            env_alias::export_pairs(exports).contains((e, l)) <==> is_exported(exports, e, l),
    decreases exports.len(),
{
    let r = env_alias::export_pairs(exports);
    if exports.len() > 0 {
        let front = exports.drop_last();
        let n = exports.len() - 1;
        let before = env_alias::export_pairs(front);
        lemma_export_pairs(front);
        let more = match exports.last() {
            Export::Declaration(patterns) => env_alias::declared_pairs(patterns@),
            Export::Named { specifiers, has_source } => if has_source {
                Seq::empty()
            } else {
                env_alias::listed_pairs(specifiers@)
            },
            Export::Default(e) => match env_alias::unwrapped(e) {
                Expr::Ident(s) => seq![("default"@, s@)],
                _ => Seq::empty(),
            },
            Export::Other => Seq::empty(),
        };
        assert(r == before + more);
        assert forall|e: Seq<char>, l: Seq<char>| #[trigger] more.contains((e, l)) <==> exports_as(
            exports[n],
            e,
            l,
        ) by {
            match exports.last() {
                Export::Declaration(patterns) => {
                    lemma_declared_pairs(patterns@);
                },
                Export::Named { specifiers, has_source } => {
                    lemma_listed_pairs(specifiers@);
                },
                Export::Default(x) => {
                    if let Expr::Ident(s) = env_alias::unwrapped(x) {
                        assert(more[0] == ("default"@, s@));
                    }
                },
                Export::Other => {},
            }
        }
        assert forall|e: Seq<char>, l: Seq<char>| #[trigger] r.contains((e, l)) <==> is_exported(
            exports,
            e,
            l,
        ) by {
            assert(before.contains((e, l)) <==> is_exported(front, e, l));
            assert(more.contains((e, l)) <==> exports_as(exports[n], e, l));
            if r.contains((e, l)) {
                let k = choose|k: int| 0 <= k < r.len() && r[k] == (e, l);
                if k < before.len() {
                    assert(before[k] == (e, l));
                    let i = choose|i: int|
                        0 <= i < front.len() && exports_as(#[trigger] front[i], e, l);
                    assert(exports[i] == front[i]);
                } else {
                    assert(more[k - before.len()] == (e, l));
                }
            }
            if is_exported(exports, e, l) {
                let i = choose|i: int|
                    0 <= i < exports.len() && exports_as(#[trigger] exports[i], e, l);
                if i < n {
                    assert(front[i] == exports[i]);
                    let k = choose|k: int| 0 <= k < before.len() && before[k] == (e, l);
                    assert(r[k] == (e, l));
                } else {
                    let k = choose|k: int| 0 <= k < more.len() && more[k] == (e, l);
                    assert(r[before.len() + k] == (e, l));
                }
            }
        }
    }
}

proof fn lemma_with_exports(
    out: Map<Seq<char>, Seq<char>>,
    locals: Map<Seq<char>, Seq<char>>,
    pairs: Seq<(Seq<char>, Seq<char>)>,
    key: Seq<char>,
)
    ensures
        match text_map::value_under(env_alias::with_exports(out, locals, pairs), key) {
            Some(v) => text_map::value_under(out, key) == Some(v) || exists|k: int|
                0 <= k < pairs.len() && shows(
                    locals,
                    (#[trigger] pairs[k]).1,
                    pairs[k].0,
                    key,
                    v,
                ),
            None => text_map::value_under(out, key) is None && forall|k: int, v: Seq<char>|
                0 <= k < pairs.len() ==> !#[trigger] shows(locals, pairs[k].1, pairs[k].0, key, v),
        },
    decreases pairs.len(),
{
    if pairs.len() > 0 {
        let front = pairs.drop_last();
        let n = pairs.len() - 1;
        lemma_with_exports(out, locals, front, key);
        lemma_renamed(locals, pairs.last().1, pairs.last().0);
        let before = env_alias::with_exports(out, locals, front);
        let added = env_alias::renamed(locals, pairs.last().1, pairs.last().0);
        let after = env_alias::with_exports(out, locals, pairs);
        assert(text_map::value_under(after, key) == match text_map::value_under(added, key) {
            Some(v) => Some(v),
            None => text_map::value_under(before, key),
        });
        match text_map::value_under(after, key) {
            Some(v) => {
                if text_map::value_under(added, key) is Some {
                    assert(shows(locals, pairs[n].1, pairs[n].0, key, v));
                } else if text_map::value_under(out, key) != Some(v) {
                    let k = choose|k: int|
                        0 <= k < front.len() && shows(
                            locals,
                            (#[trigger] front[k]).1,
                            front[k].0,
                            key,
                            v,
                        );
                    assert(pairs[k] == front[k]);
                }
            },
            None => {
                assert forall|k: int, v: Seq<char>| 0 <= k < pairs.len() implies !#[trigger] shows(
                    locals,
                    pairs[k].1,
                    pairs[k].0,
                    key,
                    v,
                ) by {
                    if k < n {
                        assert(!shows(locals, front[k].1, front[k].0, key, v));
                    } else if shows(locals, pairs[k].1, pairs[k].0, key, v) {
                        assert(text_map::value_under(added, key) == Some(v));
                    }
                }
            },
        }
    }
}

proof fn lemma_props_of(
    map: Map<Seq<char>, Seq<char>>,
    name: Seq<char>,
    props: Seq<ObjectProp>,
    known: Map<Seq<char>, Seq<char>>,
    key: Seq<char>,
)
    ensures
        match text_map::value_under(env_alias::with_props(map, name, props, known), key) {
            Some(v) => text_map::value_under(map, key) == Some(v) || exists|i: int, p: Seq<char>|
                0 <= i < props.len() && key == name + "."@ + p && #[trigger] gives(
                    props[i],
                    known,
                    p,
                    v,
                ),
            None => text_map::value_under(map, key) is None && forall|
                i: int,
                p: Seq<char>,
                v: Seq<char>,
            |
                0 <= i < props.len() && key == name + "."@ + p ==> !#[trigger] gives(
                    props[i],
                    known,
                    p,
                    v,
                ),
        },
    decreases props.len(),
{
    if props.len() > 0 {
        let front = props.drop_last();
        let n = props.len() - 1;
        lemma_props_of(map, name, front, known, key);
        let before = env_alias::with_props(map, name, front, known);
        let after = env_alias::with_props(map, name, props, known);
        let found = env_alias::prop_alias(props.last(), known);
        match text_map::value_under(after, key) {
            Some(v) => {
                if found matches Some((q, _)) && key == name + "."@ + q {
                    let (q, _) = found->0;
                    assert(gives(props[n], known, q, v));
                } else if text_map::value_under(map, key) != Some(v) {
                    let (i, p) = choose|i: int, p: Seq<char>|
                        0 <= i < front.len() && key == name + "."@ + p && #[trigger] gives(
                            front[i],
                            known,
                            p,
                            v,
                        );
                    assert(gives(props[i], known, p, v));
                }
            },
            None => {
                assert forall|i: int, p: Seq<char>, v: Seq<char>|
                    0 <= i < props.len() && key == name + "."@ + p implies !#[trigger] gives(
                    props[i],
                    known,
                    p,
                    v,
                ) by {
                    if i < n {
                        assert(!gives(front[i], known, p, v));
                    }
                }
            },
        }
    }
}

proof fn lemma_default_objects(
    exports: Seq<Export>,
    locals: Map<Seq<char>, Seq<char>>,
    key: Seq<char>,
)
    ensures
        match text_map::value_under(env_alias::default_object_aliases(exports, locals), key) {
            Some(v) => exists|p: Seq<char>|
                key == "default"@ + "."@ + p && #[trigger] is_default_property(
                    exports,
                    locals,
                    p,
                    v,
                ),
            None => forall|p: Seq<char>, v: Seq<char>|
                key == "default"@ + "."@ + p ==> !#[trigger] is_default_property(
                    exports,
                    locals,
                    p,
                    v,
                ),
        },
    decreases exports.len(),
{
    if exports.len() > 0 {
        let front = exports.drop_last();
        let n = exports.len() - 1;
        lemma_default_objects(front, locals, key);
        let before = env_alias::default_object_aliases(front, locals);
        let after = env_alias::default_object_aliases(exports, locals);
        if let Export::Default(e) = exports.last() {
            if let Expr::Object(props) = env_alias::unwrapped(e) {
                lemma_props_of(before, "default"@, props@, locals, key);
            }
        }
        match text_map::value_under(after, key) {
            Some(v) => {
                if text_map::value_under(before, key) == Some(v) {
                    let p = choose|p: Seq<char>|
                        key == "default"@ + "."@ + p && #[trigger] is_default_property(
                            front,
                            locals,
                            p,
                            v,
                        );
                    let k = choose|k: int|
                        0 <= k < front.len() && default_gives(#[trigger] front[k], locals, p, v);
                    assert(exports[k] == front[k]);
                    assert(is_default_property(exports, locals, p, v));
                } else {
                    match exports.last() {
                        Export::Default(e) => match env_alias::unwrapped(e) {
                            Expr::Object(props) => {
                                let (i, p) = choose|i: int, p: Seq<char>|
                                    0 <= i < props@.len() && key == "default"@ + "."@ + p
                                        && #[trigger] gives(props@[i], locals, p, v);
                                assert(default_gives(exports[n], locals, p, v));
                                assert(is_default_property(exports, locals, p, v));
                            },
                            _ => {},
                        },
                        _ => {},
                    }
                }
            },
            None => {
                assert forall|p: Seq<char>, v: Seq<char>|
                    key == "default"@ + "."@ + p implies !#[trigger] is_default_property(
                    exports,
                    locals,
                    p,
                    v,
                ) by {
                    if is_default_property(exports, locals, p, v) {
                        let k = choose|k: int|
                            0 <= k < exports.len() && default_gives(
                                #[trigger] exports[k],
                                locals,
                                p,
                                v,
                            );
                        if k < n {
                            assert(front[k] == exports[k]);
                            assert(is_default_property(front, locals, p, v));
                        }
                    }
                }
            },
        }
    }
}

/// Whether a module's exports show a name for a variable: one of them shows a
/// local name under another, or is a default object with the property.
pub open spec fn is_shown(
    exports: Seq<Export>,
    locals: Map<Seq<char>, Seq<char>>,
    key: Seq<char>,
    variable: Seq<char>,
) -> bool {
    ||| exists|exported: Seq<char>, local: Seq<char>| #[trigger]
        is_exported(exports, exported, local) && shows(locals, local, exported, key, variable)
    ||| exists|p: Seq<char>|
        key == "default"@ + "."@ + p && #[trigger] is_default_property(
            exports,
            locals,
            p,
            variable,
        )
}

/// A module shows a name to its importers exactly where one of its exports does,
/// and for a variable that one of them shows.
pub proof fn law_exports(module: crate::ast::Module, key: Seq<char>)
    ensures
        match text_map::value_under(env_alias::exported_aliases(module), key) {
            Some(v) => is_shown(
                module.exports@,
                env_alias::declared_aliases(module.declarators@),
                key,
                v,
            ),
            None => forall|v: Seq<char>|
                !#[trigger] is_shown(
                    module.exports@,
                    env_alias::declared_aliases(module.declarators@),
                    key,
                    v,
                ),
        },
{
    let locals = env_alias::declared_aliases(module.declarators@);
    let exports = module.exports@;
    let pairs = env_alias::export_pairs(exports);
    let start = env_alias::default_object_aliases(exports, locals);
    lemma_export_pairs(exports);
    lemma_default_objects(exports, locals, key);
    lemma_with_exports(start, locals, pairs, key);
    match text_map::value_under(env_alias::exported_aliases(module), key) {
        Some(v) => {
            if text_map::value_under(start, key) != Some(v) {
                let k = choose|k: int|
                    0 <= k < pairs.len() && shows(
                        locals,
                        (#[trigger] pairs[k]).1,
                        pairs[k].0,
                        key,
                        v,
                    );
                let (e, l) = pairs[k];
                assert(pairs.contains((e, l)));
                assert(is_exported(exports, e, l));
            }
        },
        None => {
            assert forall|v: Seq<char>| !#[trigger] is_shown(exports, locals, key, v) by {
                if is_shown(exports, locals, key, v) {
                    if exists|exported: Seq<char>, local: Seq<char>| #[trigger]
                        is_exported(exports, exported, local) && shows(
                            locals,
                            local,
                            exported,
                            key,
                            v,
                        ) {
                        let (e, l) = choose|exported: Seq<char>, local: Seq<char>| #[trigger]
                            is_exported(exports, exported, local) && shows(
                                locals,
                                local,
                                exported,
                                key,
                                v,
                            );
                        assert(pairs.contains((e, l)));
                        let k = choose|k: int| 0 <= k < pairs.len() && pairs[k] == (e, l);
                        assert(shows(locals, pairs[k].1, pairs[k].0, key, v));
                    }
                }
            }
        },
    }
}

// ---------------------------------------------------------------------------
// Imports
// ---------------------------------------------------------------------------

/// Whether an import brings in a name for a variable, out of what its source
/// shows: under the local name for the imported or the default name, or as a
/// property of a namespace.
pub open spec fn brings(
    symbol: ImportedSymbol,
    exports: Option<EnvAliasMap>,
    key: Seq<char>,
    variable: Seq<char>,
) -> bool {
    exports matches Some(map) && match symbol.kind {
        SymbolKind::Named => shows(
            map@,
            symbol.imported_name@,
            symbol.local_name@,
            key,
            variable,
        ),
        SymbolKind::Default => shows(map@, "default"@, symbol.local_name@, key, variable),
        SymbolKind::Namespace => exists|name: Seq<char>|
            key == symbol.local_name@ + "."@ + name && #[trigger] text_map::value_under(
                map@,
                name,
            ) == Some(variable),
    }
}

/// Whether an import is the first that brings in the name.
pub open spec fn brings_first(
    symbols: Seq<ImportedSymbol>,
    exports: Seq<Option<EnvAliasMap>>,
    i: int,
    key: Seq<char>,
    variable: Seq<char>,
) -> bool {
    &&& 0 <= i < symbols.len()
    &&& brings(symbols[i], exports[i], key, variable)
    &&& forall|j: int, v: Seq<char>|
        0 <= j < i ==> !#[trigger] brings(symbols[j], exports[j], key, v)
}

proof fn lemma_brings(
    symbol: ImportedSymbol,
    map: EnvAliasMap,
    key: Seq<char>,
    variable: Seq<char>,
)
    ensures
        brings(symbol, Some(map), key, variable) <==> text_map::value_under(
            env_alias::imported_aliases(symbol, map@),
            key,
        ) == Some(variable),
{
    let r = env_alias::imported_aliases(symbol, map@);
    match symbol.kind {
        SymbolKind::Named => {
            lemma_renamed(map@, symbol.imported_name@, symbol.local_name@);
        },
        SymbolKind::Default => {
            lemma_renamed(map@, "default"@, symbol.local_name@);
        },
        SymbolKind::Namespace => {
            reveal_strlit(".");
            let local = symbol.local_name@;
            if brings(symbol, Some(map), key, variable) {
                let name = choose|name: Seq<char>|
                    key == local + "."@ + name && #[trigger] text_map::value_under(map@, name)
                        == Some(variable);
                lemma_dotted(local, name, name);
            }
            if text_map::value_under(r, key) == Some(variable) {
                let name = key.skip(local.len() as int + 1);
                assert(key =~= local + "."@ + name);
                assert(text_map::value_under(map@, name) == Some(variable));
            }
        },
    }
}

/// A name that the file does not define stands for what the first import that
/// brings it in says, and for nothing where none does. What the file defines
/// stays.
pub proof fn law_first_import_counts(
    aliases: Map<Seq<char>, Seq<char>>,
    symbols: Seq<ImportedSymbol>,
    exports: Seq<Option<EnvAliasMap>>,
    key: Seq<char>,
)
    requires
        symbols.len() <= exports.len(),
    ensures
        aliases.contains_key(key) ==> text_map::value_under(
            env_alias::with_imports(aliases, symbols, exports),
            key,
        ) == Some(aliases[key]),
        !aliases.contains_key(key) ==> {
            &&& forall|i: int, v: Seq<char>| #[trigger]
                brings_first(symbols, exports, i, key, v) ==> text_map::value_under(
                    env_alias::with_imports(aliases, symbols, exports),
                    key,
                ) == Some(v)
            &&& (forall|j: int, v: Seq<char>|
                0 <= j < symbols.len() ==> !#[trigger] brings(symbols[j], exports[j], key, v))
                ==> text_map::value_under(
                env_alias::with_imports(aliases, symbols, exports),
                key,
            ) is None
        },
    decreases symbols.len(),
{
    let after = env_alias::with_imports(aliases, symbols, exports);
    if symbols.len() > 0 {
        let front = symbols.drop_last();
        let n = symbols.len() - 1;
        let before = env_alias::with_imports(aliases, front, exports);
        law_first_import_counts(aliases, front, exports, key);
        if !aliases.contains_key(key) {
            lemma_value_before(aliases, front, exports, key);
            assert forall|i: int, v: Seq<char>| #[trigger]
                brings_first(symbols, exports, i, key, v) implies text_map::value_under(after, key)
                == Some(v) by {
                if i < n {
                    assert forall|j: int, w: Seq<char>| 0 <= j < i implies !#[trigger] brings(
                        front[j],
                        exports[j],
                        key,
                        w,
                    ) by {
                        assert(!brings(symbols[j], exports[j], key, w));
                    }
                    assert(brings_first(front, exports, i, key, v));
                } else {
                    lemma_brings(symbols[n], exports[n]->0, key, v);
                    assert forall|j: int, w: Seq<char>|
                        0 <= j < front.len() implies !#[trigger] brings(
                        front[j],
                        exports[j],
                        key,
                        w,
                    ) by {
                        assert(!brings(symbols[j], exports[j], key, w));
                    }
                    assert(text_map::value_under(before, key) is None);
                }
            }
            if forall|j: int, v: Seq<char>|
                0 <= j < symbols.len() ==> !#[trigger] brings(symbols[j], exports[j], key, v) {
                assert forall|j: int, w: Seq<char>| 0 <= j < front.len() implies !#[trigger] brings(
                    front[j],
                    exports[j],
                    key,
                    w,
                ) by {
                    assert(!brings(symbols[j], exports[j], key, w));
                }
                if text_map::value_under(after, key) is Some {
                    let v = text_map::value_under(after, key)->0;
                    lemma_brings(symbols[n], exports[n]->0, key, v);
                    assert(!brings(symbols[n], exports[n], key, v));
                }
            }
        }
    }
}

proof fn lemma_value_before(
    aliases: Map<Seq<char>, Seq<char>>,
    symbols: Seq<ImportedSymbol>,
    exports: Seq<Option<EnvAliasMap>>,
    key: Seq<char>,
)
    requires
        symbols.len() <= exports.len(),
        !aliases.contains_key(key),
    ensures
        text_map::value_under(env_alias::with_imports(aliases, symbols, exports), key) matches Some(
            v,
        ) ==> exists|j: int|
            0 <= j < symbols.len() && brings(#[trigger] symbols[j], exports[j], key, v),
    decreases symbols.len(),
{
    let after = env_alias::with_imports(aliases, symbols, exports);
    if symbols.len() > 0 {
        let front = symbols.drop_last();
        let n = symbols.len() - 1;
        let before = env_alias::with_imports(aliases, front, exports);
        lemma_value_before(aliases, front, exports, key);
        if let Some(v) = text_map::value_under(after, key) {
            if text_map::value_under(before, key) is Some {
                let j = choose|j: int|
                    0 <= j < front.len() && brings(#[trigger] front[j], exports[j], key, v);
                assert(symbols[j] == front[j]);
            } else {
                lemma_brings(symbols[n], exports[n]->0, key, v);
                assert(brings(symbols[n], exports[n], key, v));
            }
        }
    }
}

/// Whether no symbol of the list has the local name.
pub open spec fn names_no_symbol(symbols: Seq<ImportedSymbol>, name: Seq<char>) -> bool {
    forall|j: int| 0 <= j < symbols.len() ==> (#[trigger] symbols[j]).local_name@ != name
}

/// Whether a symbol is the last of its local name.
pub open spec fn is_last_symbol(
    symbols: Seq<ImportedSymbol>,
    i: int,
    symbol: ImportedSymbol,
) -> bool {
    &&& 0 <= i < symbols.len()
    &&& symbols[i] == symbol
    &&& forall|j: int|
        i < j < symbols.len() ==> (#[trigger] symbols[j]).local_name@ != symbol.local_name@
}

/// Of the symbols of one local name the last that came in is known.
pub proof fn law_later_symbols_replace(
    known: Seq<ImportedSymbol>,
    more: Seq<ImportedSymbol>,
    symbol: ImportedSymbol,
)
    ensures
        env_alias::with_symbols(known, more).contains(symbol) <==> (exists|i: int| #[trigger]
            is_last_symbol(more, i, symbol)) || (known.contains(symbol) && names_no_symbol(
            more,
            symbol.local_name@,
        )),
    decreases more.len(),
{
    let r = env_alias::with_symbols(known, more);
    if more.len() > 0 {
        let first = more[0];
        let rest = more.skip(1);
        let kept = env_alias::without_name(known, first.local_name@);
        let next = kept.push(first);
        env_alias::lemma_without_name(known, first.local_name@);
        law_later_symbols_replace(next, rest, symbol);
        assert(next.contains(symbol) <==> kept.contains(symbol) || symbol == first) by {
            if kept.contains(symbol) {
                let i = choose|i: int| 0 <= i < kept.len() && kept[i] == symbol;
                assert(next[i] == symbol);
            }
            assert(next[kept.len() as int] == first);
            if next.contains(symbol) && symbol != first {
                let i = choose|i: int| 0 <= i < next.len() && next[i] == symbol;
                assert(kept[i] == symbol);
            }
        }
        assert(kept.contains(symbol) <==> known.contains(symbol) && symbol.local_name@
            != first.local_name@);
        assert(names_no_symbol(more, symbol.local_name@) <==> first.local_name@
            != symbol.local_name@ && names_no_symbol(rest, symbol.local_name@)) by {
            if names_no_symbol(more, symbol.local_name@) {
                assert forall|j: int| 0 <= j < rest.len() implies (
                #[trigger] rest[j]).local_name@ != symbol.local_name@ by {
                    assert(more[j + 1] == rest[j]);
                }
                assert(more[0].local_name@ != symbol.local_name@);
            }
            if first.local_name@ != symbol.local_name@ && names_no_symbol(rest, symbol.local_name@) {
                assert forall|j: int| 0 <= j < more.len() implies (
                #[trigger] more[j]).local_name@ != symbol.local_name@ by {
                    if j > 0 {
                        assert(rest[j - 1] == more[j]);
                    }
                }
            }
        }
        if exists|i: int| #[trigger] is_last_symbol(rest, i, symbol) {
            let i = choose|i: int| #[trigger] is_last_symbol(rest, i, symbol);
            assert forall|j: int| i + 1 < j < more.len() implies (#[trigger] more[j]).local_name@
                != symbol.local_name@ by {
                assert(rest[j - 1] == more[j]);
            }
            assert(is_last_symbol(more, i + 1, symbol));
        }
        if symbol == first && names_no_symbol(rest, symbol.local_name@) {
            assert forall|j: int| 0 < j < more.len() implies (#[trigger] more[j]).local_name@
                != symbol.local_name@ by {
                assert(rest[j - 1] == more[j]);
            }
            assert(is_last_symbol(more, 0, symbol));
        }
        if exists|i: int| #[trigger] is_last_symbol(more, i, symbol) {
            let i = choose|i: int| #[trigger] is_last_symbol(more, i, symbol);
            if i > 0 {
                assert forall|j: int| i - 1 < j < rest.len() implies (
                #[trigger] rest[j]).local_name@ != symbol.local_name@ by {
                    assert(more[j + 1] == rest[j]);
                }
                assert(is_last_symbol(rest, i - 1, symbol));
            } else {
                assert forall|j: int| 0 <= j < rest.len() implies (
                #[trigger] rest[j]).local_name@ != symbol.local_name@ by {
                    assert(more[j + 1] == rest[j]);
                }
                assert(names_no_symbol(rest, symbol.local_name@));
            }
        }
    }
}

// ---------------------------------------------------------------------------
// Targets
// ---------------------------------------------------------------------------

/// Whether a text is nothing but quotes.
pub open spec fn is_quotes(s: Seq<char>) -> bool {
    forall|i: int|
        0 <= i < s.len() ==> (#[trigger] s[i]) == '`' || s[i] == '"' || s[i] == '\''
}

pub proof fn lemma_unquoted_start(quotes: Seq<char>, rest: Seq<char>)
    requires
        is_quotes(quotes),
        rest.len() > 0,
        rest[0] != '`' && rest[0] != '"' && rest[0] != '\'',
    ensures
        protocol::unquoted_start(quotes + rest) == rest,
    decreases quotes.len(),
{
    if quotes.len() == 0 {
        assert(quotes + rest =~= rest);
    } else {
        assert((quotes + rest)[0] == quotes[0]);
        assert((quotes + rest).skip(1) =~= quotes.skip(1) + rest);
        lemma_unquoted_start(quotes.skip(1), rest);
    }
}

/// A target that begins with the interpolation of a known alias is rewritten to
/// the variable behind it: the quotes before it and all that follows stay. With
/// an alias that is not known it is not rewritten.
pub proof fn law_target_rewritten(
    quotes: Seq<char>,
    alias: Seq<char>,
    tail: Seq<char>,
    aliases: Map<Seq<char>, Seq<char>>,
)
    requires
        is_quotes(quotes),
        !alias.contains('}'),
    ensures
        env_alias::resolved_target(quotes + "${"@ + alias + "}"@ + tail, aliases)
            == match text_map::value_under(aliases, alias) {
            Some(variable) => Some(quotes + "${process.env."@ + variable + "}"@ + tail),
            None => None,
        },
{
    reveal_strlit("${");
    reveal_strlit("}");
    let rest = alias + "}"@ + tail;
    let trimmed = "${"@ + rest;
    let target = quotes + "${"@ + alias + "}"@ + tail;
    assert(target =~= quotes + trimmed);
    lemma_unquoted_start(quotes, trimmed);
    assert("${"@ =~= trimmed.subrange(0, 2));
    assert(trimmed.skip(2) =~= rest);
    text::lemma_first_index(rest, '}');
    let end = text::first_index(rest, '}');
    assert(rest[alias.len() as int] == '}');
    if end < alias.len() {
        assert(alias[end] == rest[end]);
        assert(alias.contains(alias[end]));
    }
    assert(end == alias.len());
    assert(rest.take(end) =~= alias);
    assert(rest.skip(end + 1) =~= tail);
    assert(target.take(target.len() - trimmed.len()) =~= quotes);
}

/// An interpolation that is not closed is not rewritten.
pub proof fn law_open_interpolation(
    quotes: Seq<char>,
    rest: Seq<char>,
    aliases: Map<Seq<char>, Seq<char>>,
)
    requires
        is_quotes(quotes),
        !rest.contains('}'),
    ensures
        env_alias::resolved_target(quotes + "${"@ + rest, aliases) is None,
{
    reveal_strlit("${");
    let trimmed = "${"@ + rest;
    assert(quotes + "${"@ + rest =~= quotes + trimmed);
    lemma_unquoted_start(quotes, trimmed);
    assert("${"@ =~= trimmed.subrange(0, 2));
    assert(trimmed.skip(2) =~= rest);
    text::lemma_first_index(rest, '}');
    let end = text::first_index(rest, '}');
    if end < rest.len() {
        assert(rest.contains(rest[end]));
    }
}

/// A target that begins otherwise is not rewritten.
pub proof fn law_plain_target(
    quotes: Seq<char>,
    rest: Seq<char>,
    aliases: Map<Seq<char>, Seq<char>>,
)
    requires
        is_quotes(quotes),
        rest.len() > 0,
        rest[0] != '`' && rest[0] != '"' && rest[0] != '\'',
        rest.len() < 2 || rest[0] != '$' || rest[1] != '{',
    ensures
        env_alias::resolved_target(quotes + rest, aliases) is None,
{
    reveal_strlit("${");
    lemma_unquoted_start(quotes, rest);
    if "${"@.is_prefix_of(rest) {
        assert(rest.subrange(0, 2)[0] == "${"@[0]);
        assert(rest.subrange(0, 2)[1] == "${"@[1]);
    }
}

} // verus!
