//! Environment variables behind local names.
//!
//! A base URL is often read from the environment into a constant or a
//! configuration object, possibly in another module, before it is put into a
//! call's target. The alias map takes such a name, with a dot for a property,
//! to the variable; [`resolve_target_env_alias`] rewrites a target with it.

use vstd::prelude::*;

use crate::ast::{
    BinaryOp, Declarator, Export, ExportName, ExportSpecifier, Expr, MemberProp, Module, ObjectProp,
    Pattern,
};
use crate::text_map::TextMap;
use crate::{ast, protocol, text, text_map};

verus! {

/// The variables behind the names of a module.
pub type EnvAliasMap = TextMap;

// ---------------------------------------------------------------------------
// Reading the environment
// ---------------------------------------------------------------------------

/// The variable that an expression reads from the environment: directly, with
/// a default, or in parentheses, asserted or cast.
pub open spec fn env_read(e: Expr) -> Option<Seq<char>>
    decreases e,
{
    match e {
        Expr::Member { object, prop } => if ast::is_member(*object, "process"@, "env"@) {
            match prop {
                MemberProp::Ident(s) => Some(s@),
                MemberProp::Str(s) => Some(s@),
                MemberProp::Other => None,
            }
        } else {
            None
        },
        Expr::Binary { op, left, .. } => if op == BinaryOp::NullishCoalescing || op
            == BinaryOp::LogicalOr {
            env_read(*left)
        } else {
            None
        },
        Expr::Paren(inner) => env_read(*inner),
        Expr::TsNonNull(inner) => env_read(*inner),
        Expr::TsAs(inner) => env_read(*inner),
        _ => None,
    }
}

/// An expression without the wrappers that do not change its value.
pub open spec fn unwrapped(e: Expr) -> Expr
    decreases e,
{
    match e {
        Expr::Paren(inner) => unwrapped(*inner),
        Expr::TsAs(inner) => unwrapped(*inner),
        Expr::TsConstAssertion(inner) => unwrapped(*inner),
        Expr::TsSatisfies(inner) => unwrapped(*inner),
        Expr::TsNonNull(inner) => unwrapped(*inner),
        _ => e,
    }
}

/// The variable that an expression reads from the environment.
pub fn process_env_name(e: &Expr) -> (r: Option<String>)
    ensures
        r.deep_view() == env_read(*e),
    decreases e,
{
    match e {
        Expr::Member { object, prop } => {
            if !ast::member_of(object, "process", "env") {
                return None;
            }
            match prop {
                MemberProp::Ident(s) => Some(s.clone()),
                MemberProp::Str(s) => Some(s.clone()),
                MemberProp::Other => None,
            }
        },
        Expr::Binary { op, left, .. } => {
            if *op == BinaryOp::NullishCoalescing || *op == BinaryOp::LogicalOr {
                process_env_name(left)
            } else {
                None
            }
        },
        Expr::Paren(inner) => process_env_name(inner),
        Expr::TsNonNull(inner) => process_env_name(inner),
        Expr::TsAs(inner) => process_env_name(inner),
        _ => None,
    }
}

/// An expression without the wrappers that do not change its value.
pub fn unwrap_transparent(e: &Expr) -> (r: &Expr)
    ensures
        *r == unwrapped(*e),
    decreases e,
{
    match e {
        Expr::Paren(inner) => unwrap_transparent(inner),
        Expr::TsAs(inner) => unwrap_transparent(inner),
        Expr::TsConstAssertion(inner) => unwrap_transparent(inner),
        Expr::TsSatisfies(inner) => unwrap_transparent(inner),
        Expr::TsNonNull(inner) => unwrap_transparent(inner),
        _ => e,
    }
}

/// The property name and the variable of a property: it reads the environment,
/// or names a known alias.
pub open spec fn prop_alias(prop: ObjectProp, known: Map<Seq<char>, Seq<char>>) -> Option<
    (Seq<char>, Seq<char>),
> {
    match prop {
        ObjectProp::KeyValue { name, value } => match env_read(value) {
            Some(env) => Some((name@, env)),
            None => match unwrapped(value) {
                Expr::Ident(s) => match text_map::value_under(known, s@) {
                    Some(env) => Some((name@, env)),
                    None => None,
                },
                _ => None,
            },
        },
        ObjectProp::Shorthand(s) => match text_map::value_under(known, s@) {
            Some(env) => Some((s@, env)),
            None => None,
        },
        ObjectProp::Other => None,
    }
}

/// A map with the properties of an object under a name, a later property over
/// an earlier.
pub open spec fn with_props(
    map: Map<Seq<char>, Seq<char>>,
    name: Seq<char>,
    props: Seq<ObjectProp>,
    known: Map<Seq<char>, Seq<char>>,
) -> Map<Seq<char>, Seq<char>>
    decreases props.len(),
{
    if props.len() == 0 {
        map
    } else {
        let before = with_props(map, name, props.drop_last(), known);
        match prop_alias(props.last(), known) {
            Some((prop, env)) => before.insert(name + "."@ + prop, env),
            None => before,
        }
    }
}

/// A map after one declaration: the variable that it reads, or those of the
/// object that it binds.
pub open spec fn with_declarator(map: Map<Seq<char>, Seq<char>>, d: Declarator) -> Map<
    Seq<char>,
    Seq<char>,
> {
    match (d.pattern, d.init) {
        (Pattern::Ident(name), Some(init)) => match env_read(init) {
            Some(env) => map.insert(name@, env),
            None => match unwrapped(init) {
                Expr::Object(props) => with_props(map, name@, props@, map),
                _ => map,
            },
        },
        _ => map,
    }
}

/// The aliases of a list of declarations.
pub open spec fn declared_aliases(ds: Seq<Declarator>) -> Map<Seq<char>, Seq<char>>
    decreases ds.len(),
{
    if ds.len() == 0 {
        Map::empty()
    } else {
        with_declarator(declared_aliases(ds.drop_last()), ds.last())
    }
}

fn find_prop_alias(prop: &ObjectProp, known: &EnvAliasMap) -> (r: Option<(String, String)>)
    requires
        known.well_formed(),
    ensures
        r.deep_view() == prop_alias(*prop, known@),
{
    match prop {
        ObjectProp::KeyValue { name, value } => {
            match process_env_name(value) {
                Some(env) => Some((name.clone(), env)),
                None => match unwrap_transparent(value) {
                    Expr::Ident(s) => match known.get(s) {
                        Some(env) => Some((name.clone(), env.clone())),
                        None => None,
                    },
                    _ => None,
                },
            }
        },
        ObjectProp::Shorthand(s) => match known.get(s) {
            Some(env) => Some((s.clone(), env.clone())),
            None => None,
        },
        ObjectProp::Other => None,
    }
}

/// The property names and variables of an object literal.
pub open spec fn object_aliases(props: Seq<ObjectProp>, known: Map<Seq<char>, Seq<char>>) -> Seq<
    (Seq<char>, Seq<char>),
>
    decreases props.len(),
{
    if props.len() == 0 {
        Seq::empty()
    } else {
        let before = object_aliases(props.drop_last(), known);
        match prop_alias(props.last(), known) {
            Some(pair) => before.push(pair),
            None => before,
        }
    }
}

/// The property names and variables of an object literal: properties that read
/// the environment, or that name a known alias.
pub fn object_env_props(props: &Vec<ObjectProp>, known: &EnvAliasMap) -> (r: Vec<(String, String)>)
    requires
        known.well_formed(),
    ensures
        r.deep_view() == object_aliases(props@, known@),
{
    let mut out: Vec<(String, String)> = Vec::new();
    assert(out.deep_view() =~= Seq::empty());
    let mut i: usize = 0;
    while i < props.len()
        invariant
            i <= props@.len(),
            known.well_formed(),
            out.deep_view() == object_aliases(props@.take(i as int), known@),
        decreases props@.len() - i,
    {
        assert(props@.take(i + 1).drop_last() =~= props@.take(i as int));
        if let Some(pair) = find_prop_alias(&props[i], known) {
            text::push_deep(&mut out, pair);
        }
        i += 1;
    }
    assert(props@.take(i as int) =~= props@);
    out
}

/// A map with pairs put in under a name, in their order.
pub open spec fn with_pairs(
    map: Map<Seq<char>, Seq<char>>,
    name: Seq<char>,
    pairs: Seq<(Seq<char>, Seq<char>)>,
) -> Map<Seq<char>, Seq<char>>
    decreases pairs.len(),
{
    if pairs.len() == 0 {
        map
    } else {
        with_pairs(map, name, pairs.drop_last()).insert(
            name + "."@ + pairs.last().0,
            pairs.last().1,
        )
    }
}

proof fn lemma_pairs_are_props(
    map: Map<Seq<char>, Seq<char>>,
    name: Seq<char>,
    props: Seq<ObjectProp>,
    known: Map<Seq<char>, Seq<char>>,
)
    ensures
        with_pairs(map, name, object_aliases(props, known)) == with_props(map, name, props, known),
    decreases props.len(),
{
    if props.len() > 0 {
        lemma_pairs_are_props(map, name, props.drop_last(), known);
        let before = object_aliases(props.drop_last(), known);
        if let Some(pair) = prop_alias(props.last(), known) {
            assert(before.push(pair).drop_last() =~= before);
        }
    }
}

fn insert_pairs(map: &mut EnvAliasMap, name: &str, pairs: &Vec<(String, String)>)
    requires
        old(map).well_formed(),
    ensures
        final(map).well_formed(),
        final(map)@ == with_pairs(old(map)@, name@, pairs.deep_view()),
{
    let ghost start = map@;
    let ghost p = pairs.deep_view();
    let mut i: usize = 0;
    while i < pairs.len()
        invariant
            i <= pairs@.len(),
            p == pairs.deep_view(),
            map.well_formed(),
            map@ == with_pairs(start, name@, p.take(i as int)),
        decreases pairs@.len() - i,
    {
        assert(p.take(i + 1).drop_last() =~= p.take(i as int));
        assert(p[i as int] == pairs@[i as int].deep_view());
        map.insert(text::cat3(name, ".", &pairs[i].0), pairs[i].1.clone());
        i += 1;
    }
    assert(p.take(i as int) =~= p);
}

/// The collector of a module's aliases.
pub struct EnvAliasExtractor {
    pub aliases: EnvAliasMap,
}

impl EnvAliasExtractor {
    /// Takes in one declaration.
    pub fn visit_declarator(&mut self, d: &Declarator)
        requires
            old(self).aliases.well_formed(),
        ensures
            final(self).aliases.well_formed(),
            final(self).aliases@ == with_declarator(old(self).aliases@, *d),
    {
        match (&d.pattern, &d.init) {
            (Pattern::Ident(name), Some(init)) => {
                match process_env_name(init) {
                    Some(env) => {
                        self.aliases.insert(name.clone(), env);
                    },
                    None => match unwrap_transparent(init) {
                        Expr::Object(props) => {
                            let ghost known = self.aliases@;
                            let pairs = object_env_props(props, &self.aliases);
                            proof {
                                lemma_pairs_are_props(known, name@, props@, known);
                            }
                            insert_pairs(&mut self.aliases, name, &pairs);
                        },
                        _ => {},
                    },
                }
            },
            _ => {},
        }
    }

    /// The aliases of a module: the names that its declarations give to
    /// variables of the environment.
    pub fn build(module: &Module) -> (r: EnvAliasMap)
        ensures
            r.well_formed(),
            r@ == declared_aliases(module.declarators@),
    {
        let ds = &module.declarators;
        let mut extractor = EnvAliasExtractor { aliases: EnvAliasMap::new() };
        let mut i: usize = 0;
        while i < ds.len()
            invariant
                i <= ds@.len(),
                extractor.aliases.well_formed(),
                extractor.aliases@ == declared_aliases(ds@.take(i as int)),
            decreases ds@.len() - i,
        {
            assert(ds@.take(i + 1).drop_last() =~= ds@.take(i as int));
            extractor.visit_declarator(&ds[i]);
            i += 1;
        }
        assert(ds@.take(i as int) =~= ds@);
        extractor.aliases
    }
}

// ---------------------------------------------------------------------------
// Renaming
// ---------------------------------------------------------------------------

/// The name under which `key` is known where `to` is known as `from`: the name
/// itself, or a property of it.
pub open spec fn source_name(key: Seq<char>, from: Seq<char>, to: Seq<char>) -> Option<Seq<char>> {
    if key == to {
        Some(from)
    } else if (to + "."@).is_prefix_of(key) {
        Some(from + "."@ + key.skip(to.len() as int + 1))
    } else {
        None
    }
}

/// The aliases of one name and its properties, under another name.
pub open spec fn renamed(
    map: Map<Seq<char>, Seq<char>>,
    from: Seq<char>,
    to: Seq<char>,
) -> Map<Seq<char>, Seq<char>> {
    Map::new(
        |key: Seq<char>| source_name(key, from, to) matches Some(s) && map.contains_key(s),
        |key: Seq<char>| map[source_name(key, from, to)->0],
    )
}

/// All the aliases, as properties of a name.
pub open spec fn under_namespace(map: Map<Seq<char>, Seq<char>>, name: Seq<char>) -> Map<
    Seq<char>,
    Seq<char>,
> {
    Map::new(
        |key: Seq<char>| (name + "."@).is_prefix_of(key) && map.contains_key(
            key.skip(name.len() as int + 1),
        ),
        |key: Seq<char>| map[key.skip(name.len() as int + 1)],
    )
}

/// The new name of an entry, where it is the name or one of its properties.
pub open spec fn target_name(key: Seq<char>, from: Seq<char>, to: Seq<char>) -> Option<Seq<char>> {
    if key == from {
        Some(to)
    } else {
        match text::strip_prefix_spec(key, from + "."@) {
            Some(suffix) => Some(to + "."@ + suffix),
            None => None,
        }
    }
}

proof fn lemma_names_correspond(key: Seq<char>, from: Seq<char>, to: Seq<char>, target: Seq<char>)
    ensures
        (target_name(key, from, to) == Some(target)) == (source_name(target, from, to) == Some(
            key,
        )),
{
    reveal_strlit(".");
    let fd = from + "."@;
    let td = to + "."@;
    if target_name(key, from, to) == Some(target) {
        if key == from {
        } else {
            let suffix = key.skip(fd.len() as int);
            assert(fd =~= key.subrange(0, fd.len() as int));
            assert(target =~= td + suffix);
            assert(td =~= target.subrange(0, td.len() as int));
            assert(target.skip(to.len() as int + 1) =~= suffix);
            assert(key =~= fd + suffix);
            assert(target.len() > to.len());
        }
    }
    if source_name(target, from, to) == Some(key) {
        if target == to {
        } else {
            let suffix = target.skip(to.len() as int + 1);
            assert(td =~= target.subrange(0, td.len() as int));
            assert(key =~= fd + suffix);
            assert(fd =~= key.subrange(0, fd.len() as int));
            assert(key.skip(fd.len() as int) =~= suffix);
            assert(target =~= td + suffix);
            assert(key.len() > from.len());
        }
    }
}

fn rename_key(key: &str, from: &str, to: &str) -> (r: Option<String>)
    ensures
        r.deep_view() == target_name(key@, from@, to@),
{
    if text::same_text(key, from) {
        return Some(text::owned(to));
    }
    let prefix = text::cat2(from, ".");
    match text::strip_prefix(key, &prefix) {
        Some(suffix) => Some(text::cat3(to, ".", &suffix)),
        None => None,
    }
}

fn put_renamed(out: &mut EnvAliasMap, map: &EnvAliasMap, from: &str, to: &str)
    requires
        old(out).well_formed(),
        map.well_formed(),
    ensures
        final(out).well_formed(),
        final(out)@ == old(out)@.union_prefer_right(renamed(map@, from@, to@)),
{
    let ghost start = out@;
    let ghost all = map.entries@;
    let mut i: usize = 0;
    proof {
        assert(text_map::walked(all, 0) =~= Map::empty());
        assert(out@ =~= start.union_prefer_right(renamed(text_map::walked(all, 0), from@, to@)));
    }
    while i < map.entries.len()
        invariant
            i <= map.entries@.len(),
            all == map.entries@,
            text_map::names_distinct(all),
            out.well_formed(),
            out@ == start.union_prefer_right(renamed(text_map::walked(all, i as int), from@, to@)),
        decreases map.entries@.len() - i,
    {
        let entry = &map.entries[i];
        let ghost before = text_map::walked(all, i as int);
        let ghost after = text_map::walked(all, i + 1);
        let ghost so_far = out@;
        assert(all.take(i + 1).drop_last() =~= all.take(i as int));
        assert(after =~= before.insert(entry.name@, entry.value@));
        let target = rename_key(&entry.name, from, to);
        let ghost goal = start.union_prefer_right(renamed(after, from@, to@));
        match target {
            Some(t) => {
                out.insert(t, entry.value.clone());
                proof {
                    lemma_names_correspond(entry.name@, from@, to@, t@);
                    assert forall|k: Seq<char>| text_map::value_under(out@, k) == #[trigger] text_map::value_under(goal, k) by {
                        lemma_names_correspond(entry.name@, from@, to@, k);
                    }
                    text_map::lemma_same_map(out@, goal);
                }
            },
            None => {
                proof {
                    assert forall|k: Seq<char>| text_map::value_under(so_far, k) == #[trigger] text_map::value_under(goal, k) by {
                        lemma_names_correspond(entry.name@, from@, to@, k);
                    }
                    text_map::lemma_same_map(so_far, goal);
                }
            },
        }
        i += 1;
    }
    assert(all.take(i as int) =~= all);
}

// ---------------------------------------------------------------------------
// Exports
// ---------------------------------------------------------------------------

/// The names that a declaration binds by a plain identifier, each exported under
/// itself.
pub open spec fn declared_pairs(patterns: Seq<Pattern>) -> Seq<(Seq<char>, Seq<char>)>
    decreases patterns.len(),
{
    if patterns.len() == 0 {
        Seq::empty()
    } else {
        let before = declared_pairs(patterns.drop_last());
        match patterns.last() {
            Pattern::Ident(name) => before.push((name@, name@)),
            _ => before,
        }
    }
}

/// The text of a name in an export list.
pub open spec fn export_name(name: ExportName) -> Seq<char> {
    match name {
        ExportName::Ident(s) => s@,
        ExportName::Str(s) => s@,
    }
}

/// The pairs of an export list. An entry counts where its local name is an
/// identifier; without an exported name it is exported under the local one.
pub open spec fn listed_pairs(specifiers: Seq<ExportSpecifier>) -> Seq<(Seq<char>, Seq<char>)>
    decreases specifiers.len(),
{
    if specifiers.len() == 0 {
        Seq::empty()
    } else {
        let before = listed_pairs(specifiers.drop_last());
        match specifiers.last() {
            ExportSpecifier::Named { local: ExportName::Ident(local), exported } => before.push(
                (
                    match exported {
                        Some(name) => export_name(name),
                        None => local@,
                    },
                    local@,
                ),
            ),
            _ => before,
        }
    }
}

/// The exported names with the local names behind them. What another module is
/// the source of has no local name.
pub open spec fn export_pairs(exports: Seq<Export>) -> Seq<(Seq<char>, Seq<char>)>
    decreases exports.len(),
{
    if exports.len() == 0 {
        Seq::empty()
    } else {
        export_pairs(exports.drop_last()) + match exports.last() {
            Export::Declaration(patterns) => declared_pairs(patterns@),
            Export::Named { specifiers, has_source } => if has_source {
                Seq::empty()
            } else {
                listed_pairs(specifiers@)
            },
            Export::Default(e) => match unwrapped(e) {
                Expr::Ident(s) => seq![("default"@, s@)],
                _ => Seq::empty(),
            },
            Export::Other => Seq::empty(),
        }
    }
}

/// The aliases of an object that is exported by default.
pub open spec fn default_object_aliases(
    exports: Seq<Export>,
    locals: Map<Seq<char>, Seq<char>>,
) -> Map<Seq<char>, Seq<char>>
    decreases exports.len(),
{
    if exports.len() == 0 {
        Map::empty()
    } else {
        let before = default_object_aliases(exports.drop_last(), locals);
        match exports.last() {
            Export::Default(e) => match unwrapped(e) {
                Expr::Object(props) => with_props(before, "default"@, props@, locals),
                _ => before,
            },
            _ => before,
        }
    }
}

/// A map with the aliases of the exported names.
pub open spec fn with_exports(
    out: Map<Seq<char>, Seq<char>>,
    locals: Map<Seq<char>, Seq<char>>,
    pairs: Seq<(Seq<char>, Seq<char>)>,
) -> Map<Seq<char>, Seq<char>>
    decreases pairs.len(),
{
    if pairs.len() == 0 {
        out
    } else {
        with_exports(out, locals, pairs.drop_last()).union_prefer_right(
            renamed(locals, pairs.last().1, pairs.last().0),
        )
    }
}

/// The aliases that a module shows to its importers, under the exported names.
pub open spec fn exported_aliases(module: Module) -> Map<Seq<char>, Seq<char>> {
    let locals = declared_aliases(module.declarators@);
    with_exports(
        default_object_aliases(module.exports@, locals),
        locals,
        export_pairs(module.exports@),
    )
}

fn push_pair(pairs: &mut Vec<(String, String)>, exported: &str, local: &str)
    ensures
        final(pairs).deep_view() == old(pairs).deep_view().push((exported@, local@)),
{
    text::push_deep(pairs, (text::owned(exported), text::owned(local)));
}

fn push_declared(pairs: &mut Vec<(String, String)>, patterns: &Vec<Pattern>)
    ensures
        final(pairs).deep_view() == old(pairs).deep_view() + declared_pairs(patterns@),
{
    let ghost before = pairs.deep_view();
    let mut i: usize = 0;
    assert(before + declared_pairs(patterns@.take(0)) =~= before);
    while i < patterns.len()
        invariant
            i <= patterns@.len(),
            pairs.deep_view() == before + declared_pairs(patterns@.take(i as int)),
        decreases patterns@.len() - i,
    {
        assert(patterns@.take(i + 1).drop_last() =~= patterns@.take(i as int));
        if let Pattern::Ident(name) = &patterns[i] {
            push_pair(pairs, name, name);
        }
        i += 1;
        assert(pairs.deep_view() =~= before + declared_pairs(patterns@.take(i as int)));
    }
    assert(patterns@.take(i as int) =~= patterns@);
}

fn push_listed(pairs: &mut Vec<(String, String)>, specifiers: &Vec<ExportSpecifier>)
    ensures
        final(pairs).deep_view() == old(pairs).deep_view() + listed_pairs(specifiers@),
{
    let ghost before = pairs.deep_view();
    let mut i: usize = 0;
    assert(before + listed_pairs(specifiers@.take(0)) =~= before);
    while i < specifiers.len()
        invariant
            i <= specifiers@.len(),
            pairs.deep_view() == before + listed_pairs(specifiers@.take(i as int)),
        decreases specifiers@.len() - i,
    {
        assert(specifiers@.take(i + 1).drop_last() =~= specifiers@.take(i as int));
        if let ExportSpecifier::Named { local: ExportName::Ident(local), exported } = &specifiers[i] {
            match exported {
                Some(ExportName::Ident(name)) => push_pair(pairs, name, local),
                Some(ExportName::Str(name)) => push_pair(pairs, name, local),
                None => push_pair(pairs, local, local),
            }
        }
        i += 1;
        assert(pairs.deep_view() =~= before + listed_pairs(specifiers@.take(i as int)));
    }
    assert(specifiers@.take(i as int) =~= specifiers@);
}

/// The aliases that a module shows to its importers, under the exported names:
/// `name` and `name.property`, `default` and `default.property`. What is
/// exported from another module is not followed.
pub fn exported_env_aliases(module: &Module) -> (r: EnvAliasMap)
    ensures
        r.well_formed(),
        r@ == exported_aliases(*module),
{
    let locals = EnvAliasExtractor::build(module);
    let exports = &module.exports;
    let mut out = EnvAliasMap::new();
    let mut pairs: Vec<(String, String)> = Vec::new();
    assert(pairs.deep_view() =~= Seq::empty());
    let mut i: usize = 0;
    while i < exports.len()
        invariant
            i <= exports@.len(),
            locals.well_formed(),
            out.well_formed(),
            pairs.deep_view() == export_pairs(exports@.take(i as int)),
            out@ == default_object_aliases(exports@.take(i as int), locals@),
        decreases exports@.len() - i,
    {
        assert(exports@.take(i + 1).drop_last() =~= exports@.take(i as int));
        let ghost before = pairs.deep_view();
        match &exports[i] {
            Export::Declaration(patterns) => {
                push_declared(&mut pairs, patterns);
            },
            Export::Named { specifiers, has_source } => {
                if *has_source {
                    assert(pairs.deep_view() =~= before + Seq::empty());
                } else {
                    push_listed(&mut pairs, specifiers);
                }
            },
            Export::Default(e) => {
                match unwrap_transparent(e) {
                    Expr::Ident(s) => {
                        push_pair(&mut pairs, "default", s);
                        assert(pairs.deep_view() =~= before + seq![("default"@, s@)]);
                    },
                    Expr::Object(props) => {
                        let found = object_env_props(props, &locals);
                        proof {
                            lemma_pairs_are_props(out@, "default"@, props@, locals@);
                        }
                        insert_pairs(&mut out, "default", &found);
                        assert(pairs.deep_view() =~= before + Seq::empty());
                    },
                    _ => {
                        assert(pairs.deep_view() =~= before + Seq::empty());
                    },
                }
            },
            Export::Other => {
                assert(pairs.deep_view() =~= before + Seq::empty());
            },
        }
        i += 1;
    }
    assert(exports@.take(i as int) =~= exports@);
    let ghost start = out@;
    let ghost p = pairs.deep_view();
    let mut j: usize = 0;
    while j < pairs.len()
        invariant
            j <= pairs@.len(),
            p == pairs.deep_view(),
            locals.well_formed(),
            out.well_formed(),
            out@ == with_exports(start, locals@, p.take(j as int)),
        decreases pairs@.len() - j,
    {
        assert(p.take(j + 1).drop_last() =~= p.take(j as int));
        assert(p[j as int] == pairs@[j as int].deep_view());
        put_renamed(&mut out, &locals, &pairs[j].1, &pairs[j].0);
        j += 1;
    }
    assert(p.take(j as int) =~= p);
    out
}

// ---------------------------------------------------------------------------
// Imports
// ---------------------------------------------------------------------------

/// How a name is imported.
#[derive(Clone, Copy, PartialEq, Eq, Structural, Debug)]
pub enum SymbolKind {
    Named,
    Default,
    Namespace,
}

/// A name that a module imports.
#[derive(Debug)]
pub struct ImportedSymbol {
    pub local_name: String,
    pub imported_name: String,
    pub source: String,
    pub kind: SymbolKind,
}

/// The symbols without those of a local name.
pub open spec fn without_name(symbols: Seq<ImportedSymbol>, name: Seq<char>) -> Seq<ImportedSymbol>
    decreases symbols.len(),
{
    if symbols.len() == 0 {
        Seq::empty()
    } else {
        let before = without_name(symbols.drop_last(), name);
        if symbols.last().local_name@ == name {
            before
        } else {
            before.push(symbols.last())
        }
    }
}

/// The symbols known so far with those of another module: a later symbol takes
/// the place of an earlier one with the same local name.
pub open spec fn with_symbols(known: Seq<ImportedSymbol>, more: Seq<ImportedSymbol>) -> Seq<
    ImportedSymbol,
>
    decreases more.len(),
{
    if more.len() == 0 {
        known
    } else {
        with_symbols(
            without_name(known, more[0].local_name@).push(more[0]),
            more.skip(1),
        )
    }
}

fn remove_name(symbols: &mut Vec<ImportedSymbol>, name: &str)
    ensures
        final(symbols)@ == without_name(old(symbols)@, name@),
{
    let ghost all = symbols@;
    let mut i: usize = 0;
    let ghost mut done: int = 0;
    assert(all.take(0) =~= Seq::empty());
    assert(symbols@ =~= without_name(all.take(0), name@) + all.skip(0));
    while i < symbols.len()
        invariant
            i <= symbols@.len(),
            0 <= done <= all.len(),
            without_name(all.take(done), name@).len() == i,
            symbols@ == without_name(all.take(done), name@) + all.skip(done),
        decreases symbols@.len() - i,
    {
        assert(symbols@[i as int] == all.skip(done)[0]);
        assert(all.take(done + 1).drop_last() =~= all.take(done));
        assert(all.take(done + 1).last() == all[done]);
        let ghost kept = without_name(all.take(done), name@);
        if text::same_text(&symbols[i].local_name, name) {
            symbols.remove(i);
            assert(symbols@ =~= kept + all.skip(done + 1));
        } else {
            i += 1;
            assert(symbols@ =~= kept.push(all[done]) + all.skip(done + 1));
        }
        proof {
            done = done + 1;
        }
    }
    assert(all.skip(done) =~= Seq::empty());
    assert(all.take(done) =~= all);
    assert(symbols@ =~= without_name(all, name@));
}

/// Adds the symbols that a module imports to those known so far, each local
/// name once.
pub fn add_symbols(known: Vec<ImportedSymbol>, more: Vec<ImportedSymbol>) -> (r: Vec<
    ImportedSymbol,
>)
    ensures
        r@ == with_symbols(known@, more@),
{
    let ghost target = with_symbols(known@, more@);
    let mut symbols = known;
    let mut left = more;
    while left.len() > 0
        invariant
            with_symbols(symbols@, left@) == target,
        decreases left@.len(),
    {
        let ghost before = left@;
        let symbol = left.remove(0);
        assert(left@ =~= before.skip(1));
        remove_name(&mut symbols, &symbol.local_name);
        symbols.push(symbol);
    }
    symbols
}

/// Whether no two symbols have the same local name.
pub open spec fn names_distinct(symbols: Seq<ImportedSymbol>) -> bool {
    forall|i: int, j: int|
        #![trigger symbols[i], symbols[j]]
        0 <= i < j < symbols.len() ==> symbols[i].local_name@ != symbols[j].local_name@
}

pub proof fn lemma_without_name(symbols: Seq<ImportedSymbol>, name: Seq<char>)
    ensures
        forall|s: ImportedSymbol| #[trigger]
            without_name(symbols, name).contains(s) <==> symbols.contains(s) && s.local_name@
                != name,
        names_distinct(symbols) ==> names_distinct(without_name(symbols, name)),
    decreases symbols.len(),
{
    let r = without_name(symbols, name);
    if symbols.len() > 0 {
        let front = symbols.drop_last();
        let last = symbols.last();
        let before = without_name(front, name);
        lemma_without_name(front, name);
        assert forall|s: ImportedSymbol| #[trigger] r.contains(s) <==> symbols.contains(s)
            && s.local_name@ != name by {
            assert(before.contains(s) <==> front.contains(s) && s.local_name@ != name);
            if r.contains(s) {
                let i = choose|i: int| 0 <= i < r.len() && r[i] == s;
                if i < before.len() {
                    assert(before[i] == s);
                    assert(before.contains(s));
                    let j = choose|j: int| 0 <= j < front.len() && front[j] == s;
                    assert(symbols[j] == s);
                } else {
                    assert(symbols[symbols.len() - 1] == s);
                }
            }
            if symbols.contains(s) && s.local_name@ != name {
                let j = choose|j: int| 0 <= j < symbols.len() && symbols[j] == s;
                if j < front.len() {
                    assert(front[j] == s);
                    let i = choose|i: int| 0 <= i < before.len() && before[i] == s;
                    assert(r[i] == s);
                } else {
                    assert(r[before.len() as int] == s);
                }
            }
        }
        if names_distinct(symbols) {
            assert(names_distinct(front)) by {
                assert forall|i: int, j: int|
                    #![trigger front[i], front[j]]
                    0 <= i < j < front.len() implies front[i].local_name@
                    != front[j].local_name@ by {
                    assert(symbols[i].local_name@ != symbols[j].local_name@);
                }
            }
            assert forall|i: int, j: int|
                #![trigger r[i], r[j]]
                0 <= i < j < r.len() implies r[i].local_name@ != r[j].local_name@ by {
                if j == before.len() {
                    assert(before.contains(before[i]));
                    let k = choose|k: int| 0 <= k < front.len() && front[k] == before[i];
                    assert(symbols[k].local_name@ != symbols[symbols.len() - 1].local_name@);
                } else {
                    assert(before[i].local_name@ != before[j].local_name@);
                }
            }
        }
    }
}

/// Each local name stays unique as modules are added, and the last symbol of a
/// module is known afterwards under its name.
pub proof fn law_symbols_stay_distinct(known: Seq<ImportedSymbol>, more: Seq<ImportedSymbol>)
    requires
        names_distinct(known),
    ensures
        names_distinct(with_symbols(known, more)),
        more.len() > 0 ==> with_symbols(known, more).contains(more.last()),
    decreases more.len(),
{
    if more.len() > 0 {
        let first = more[0];
        let rest = without_name(known, first.local_name@);
        let next = rest.push(first);
        lemma_without_name(known, first.local_name@);
        assert forall|i: int, j: int|
            #![trigger next[i], next[j]]
            0 <= i < j < next.len() implies next[i].local_name@ != next[j].local_name@ by {
            if j == rest.len() {
                assert(rest.contains(rest[i]));
            } else {
                assert(rest[i].local_name@ != rest[j].local_name@);
            }
        }
        law_symbols_stay_distinct(next, more.skip(1));
        if more.len() == 1 {
            assert(next[rest.len() as int] == first);
        } else {
            assert(more.skip(1).last() == more.last());
        }
    }
}

/// The aliases that an import brings in, under the local name.
pub open spec fn imported_aliases(symbol: ImportedSymbol, exports: Map<Seq<char>, Seq<char>>) -> Map<
    Seq<char>,
    Seq<char>,
> {
    match symbol.kind {
        SymbolKind::Named => renamed(exports, symbol.imported_name@, symbol.local_name@),
        SymbolKind::Default => renamed(exports, "default"@, symbol.local_name@),
        SymbolKind::Namespace => under_namespace(exports, symbol.local_name@),
    }
}

/// A map with the aliases of imports in its vacant places, an earlier import
/// before a later. An import without exports is one that does not resolve.
pub open spec fn with_imports(
    aliases: Map<Seq<char>, Seq<char>>,
    symbols: Seq<ImportedSymbol>,
    exports: Seq<Option<EnvAliasMap>>,
) -> Map<Seq<char>, Seq<char>>
    decreases symbols.len(),
{
    if symbols.len() == 0 {
        aliases
    } else {
        let before = with_imports(aliases, symbols.drop_last(), exports);
        match exports[symbols.len() - 1] {
            Some(map) => imported_aliases(symbols.last(), map@).union_prefer_right(before),
            None => before,
        }
    }
}

fn fill_renamed(out: &mut EnvAliasMap, map: &EnvAliasMap, from: &str, to: &str)
    requires
        old(out).well_formed(),
        map.well_formed(),
    ensures
        final(out).well_formed(),
        final(out)@ == renamed(map@, from@, to@).union_prefer_right(old(out)@),
{
    let ghost start = out@;
    let ghost all = map.entries@;
    let mut i: usize = 0;
    proof {
        assert(text_map::walked(all, 0) =~= Map::empty());
        assert(out@ =~= renamed(text_map::walked(all, 0), from@, to@).union_prefer_right(start));
    }
    while i < map.entries.len()
        invariant
            i <= map.entries@.len(),
            all == map.entries@,
            text_map::names_distinct(all),
            out.well_formed(),
            out@ == renamed(text_map::walked(all, i as int), from@, to@).union_prefer_right(start),
        decreases map.entries@.len() - i,
    {
        let entry = &map.entries[i];
        let ghost before = text_map::walked(all, i as int);
        let ghost after = text_map::walked(all, i + 1);
        let ghost so_far = out@;
        assert(all.take(i + 1).drop_last() =~= all.take(i as int));
        assert(after =~= before.insert(entry.name@, entry.value@));
        proof {
            text_map::lemma_new_name(all, i as int);
        }
        let target = rename_key(&entry.name, from, to);
        let ghost goal = renamed(after, from@, to@).union_prefer_right(start);
        match target {
            Some(t) => {
                out.insert_if_vacant(t, entry.value.clone());
                proof {
                    lemma_names_correspond(entry.name@, from@, to@, t@);
                    assert forall|k: Seq<char>| text_map::value_under(out@, k) == #[trigger] text_map::value_under(goal, k) by {
                        lemma_names_correspond(entry.name@, from@, to@, k);
                    }
                    text_map::lemma_same_map(out@, goal);
                }
            },
            None => {
                proof {
                    assert forall|k: Seq<char>| text_map::value_under(so_far, k) == #[trigger] text_map::value_under(goal, k) by {
                        lemma_names_correspond(entry.name@, from@, to@, k);
                    }
                    text_map::lemma_same_map(so_far, goal);
                }
            },
        }
        i += 1;
    }
    assert(all.take(i as int) =~= all);
}

fn fill_namespace(out: &mut EnvAliasMap, map: &EnvAliasMap, name: &str)
    requires
        old(out).well_formed(),
        map.well_formed(),
    ensures
        final(out).well_formed(),
        final(out)@ == under_namespace(map@, name@).union_prefer_right(old(out)@),
{
    let ghost start = out@;
    let ghost all = map.entries@;
    let mut i: usize = 0;
    proof {
        assert(text_map::walked(all, 0) =~= Map::empty());
        assert(out@ =~= under_namespace(text_map::walked(all, 0), name@).union_prefer_right(start));
        reveal_strlit(".");
    }
    while i < map.entries.len()
        invariant
            i <= map.entries@.len(),
            all == map.entries@,
            text_map::names_distinct(all),
            out.well_formed(),
            "."@.len() == 1,
            out@ == under_namespace(text_map::walked(all, i as int), name@).union_prefer_right(start),
        decreases map.entries@.len() - i,
    {
        let entry = &map.entries[i];
        let ghost before = text_map::walked(all, i as int);
        let ghost after = text_map::walked(all, i + 1);
        assert(all.take(i + 1).drop_last() =~= all.take(i as int));
        assert(after =~= before.insert(entry.name@, entry.value@));
        proof {
            text_map::lemma_new_name(all, i as int);
        }
        let ghost goal = under_namespace(after, name@).union_prefer_right(start);
        let target = text::cat3(name, ".", &entry.name);
        let ghost t = target@;
        out.insert_if_vacant(target, entry.value.clone());
        proof {
            let nd = name@ + "."@;
            assert(nd =~= t.subrange(0, nd.len() as int));
            assert(t.skip(name@.len() as int + 1) =~= entry.name@);
            assert forall|k: Seq<char>| text_map::value_under(out@, k) == #[trigger] text_map::value_under(goal, k) by {
                if nd.is_prefix_of(k) && k.skip(name@.len() as int + 1) == entry.name@ {
                    assert(k =~= nd + k.skip(name@.len() as int + 1));
                    assert(k =~= t);
                }
            }
            text_map::lemma_same_map(out@, goal);
        }
        i += 1;
    }
    assert(all.take(i as int) =~= all);
}

/// Takes the exported aliases of imported modules into the aliases of the
/// importing file, under its local names. `exports` holds for each symbol what
/// its source module exports; `None` where the module does not resolve. What
/// the file defines itself always stays.
pub fn merge_imported_env_aliases(
    aliases: &mut EnvAliasMap,
    imported_symbols: &Vec<ImportedSymbol>,
    exports: &Vec<Option<EnvAliasMap>>,
)
    requires
        old(aliases).well_formed(),
        imported_symbols@.len() == exports@.len(),
        forall|i: int|
            0 <= i < exports@.len() ==> ((#[trigger] exports@[i]) matches Some(m)
                ==> m.well_formed()),
    ensures
        final(aliases).well_formed(),
        final(aliases)@ == with_imports(old(aliases)@, imported_symbols@, exports@),
{
    let ghost start = aliases@;
    let mut i: usize = 0;
    while i < imported_symbols.len()
        invariant
            i <= imported_symbols@.len(),
            imported_symbols@.len() == exports@.len(),
            forall|k: int|
                0 <= k < exports@.len() ==> ((#[trigger] exports@[k]) matches Some(m)
                    ==> m.well_formed()),
            aliases.well_formed(),
            aliases@ == with_imports(start, imported_symbols@.take(i as int), exports@),
        decreases imported_symbols@.len() - i,
    {
        let symbol = &imported_symbols[i];
        assert(imported_symbols@.take(i + 1).drop_last() =~= imported_symbols@.take(i as int));
        assert(exports@[i as int] matches Some(m) ==> m.well_formed());
        if let Some(map) = &exports[i] {
            match symbol.kind {
                SymbolKind::Named => {
                    fill_renamed(aliases, map, &symbol.imported_name, &symbol.local_name);
                },
                SymbolKind::Default => {
                    fill_renamed(aliases, map, "default", &symbol.local_name);
                },
                SymbolKind::Namespace => {
                    fill_namespace(aliases, map, &symbol.local_name);
                },
            }
        }
        i += 1;
    }
    assert(imported_symbols@.take(i as int) =~= imported_symbols@);
}

/// What a file defines itself always wins over what it imports.
pub proof fn law_local_aliases_win(
    aliases: Map<Seq<char>, Seq<char>>,
    symbols: Seq<ImportedSymbol>,
    exports: Seq<Option<EnvAliasMap>>,
    key: Seq<char>,
)
    requires
        aliases.contains_key(key),
    ensures
        with_imports(aliases, symbols, exports).contains_key(key),
        with_imports(aliases, symbols, exports)[key] == aliases[key],
    decreases symbols.len(),
{
    if symbols.len() > 0 {
        law_local_aliases_win(aliases, symbols.drop_last(), exports, key);
    }
}

// ---------------------------------------------------------------------------
// Targets
// ---------------------------------------------------------------------------

/// A target with the variable in place of the alias that it begins with, behind
/// any quotes; `None` where it does not begin with a known alias.
pub open spec fn resolved_target(target: Seq<char>, aliases: Map<Seq<char>, Seq<char>>) -> Option<
    Seq<char>,
> {
    let trimmed = protocol::unquoted_start(target);
    match text::strip_prefix_spec(trimmed, "${"@) {
        Some(rest) => {
            let end = text::first_index(rest, '}');
            let alias = rest.take(end);
            if end < rest.len() && aliases.contains_key(alias) {
                Some(
                    target.take(target.len() - trimmed.len()) + "${process.env."@ + aliases[alias]
                        + "}"@ + rest.skip(end + 1),
                )
            } else {
                None
            }
        },
        None => None,
    }
}

/// Rewrites the alias that a call's target begins with to the variable behind
/// it. Only the beginning is a base URL: what is interpolated later is a
/// parameter and stays.
pub fn resolve_target_env_alias(target: &str, aliases: &EnvAliasMap) -> (r: Option<String>)
    requires
        aliases.well_formed(),
    ensures
        r.deep_view() == resolved_target(target@, aliases@),
{
    let v = text::chars_of(target);
    let mut i: usize = 0;
    assert(v@.skip(0) =~= v@);
    while i < v.len() && (v[i] == '`' || v[i] == '"' || v[i] == '\'')
        invariant
            i <= v@.len(),
            protocol::unquoted_start(v@) == protocol::unquoted_start(v@.skip(i as int)),
        decreases v@.len() - i,
    {
        assert(v@.skip(i as int).skip(1) =~= v@.skip(i + 1));
        i += 1;
    }
    let quotes = text::text_range(&v, 0, i);
    let trimmed = text::text_range(&v, i, v.len());
    assert(trimmed@ =~= v@.skip(i as int));
    assert(quotes@ =~= target@.take(target@.len() - trimmed@.len()));
    let rest = match text::strip_prefix(&trimmed, "${") {
        Some(rest) => rest,
        None => {
            return None;
        },
    };
    let w = text::chars_of(&rest);
    let end = match text::find_char(&w, '}') {
        Some(end) => end,
        None => {
            return None;
        },
    };
    let alias = text::text_range(&w, 0, end);
    assert(alias@ =~= rest@.take(end as int));
    assert(end < w.len());
    let tail = text::text_range(&w, end + 1, w.len());
    assert(tail@ =~= rest@.skip(end + 1));
    match aliases.get(&alias) {
        Some(env) => Some(text::cat5(&quotes, "${process.env.", env, "}", &tail)),
        None => None,
    }
}

/// A target that does not begin with an interpolation is never rewritten.
pub proof fn law_only_leading_interpolation(
    target: Seq<char>,
    aliases: Map<Seq<char>, Seq<char>>,
)
    requires
        !"${"@.is_prefix_of(protocol::unquoted_start(target)),
    ensures
        resolved_target(target, aliases) is None,
{
}

} // verus!
