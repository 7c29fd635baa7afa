//! Reading environment aliases out of source text.

use carrick::ast;
use carrick::env_alias::{
    add_symbols, exported_env_aliases, merge_imported_env_aliases, resolve_target_env_alias, EnvAliasExtractor,
    EnvAliasMap, ImportedSymbol, SymbolKind,
};
use swc_common::sync::Lrc;
use swc_common::{FileName, SourceMap};
use swc_ecma_ast::{
    BinaryOp, Decl, EsVersion, ExportSpecifier, Expr, Lit, MemberProp, Module, ModuleDecl,
    ModuleExportName, ModuleItem, Pat, Prop, PropName, PropOrSpread, VarDecl,
};
use swc_ecma_parser::{parse_file_as_module, Syntax, TsSyntax};
use swc_ecma_visit::{Visit, VisitWith};

fn boxed(e: &Expr) -> Box<ast::Expr> {
    Box::new(expr_of(e))
}

fn prop_of(prop: &PropOrSpread) -> ast::ObjectProp {
    let PropOrSpread::Prop(prop) = prop else {
        return ast::ObjectProp::Other;
    };
    match &**prop {
        Prop::KeyValue(kv) => {
            let name = match &kv.key {
                PropName::Ident(ident) => ident.sym.to_string(),
                PropName::Str(s) => s.value.to_string_lossy().to_string(),
                _ => return ast::ObjectProp::Other,
            };
            ast::ObjectProp::KeyValue { name, value: expr_of(&kv.value) }
        }
        Prop::Shorthand(ident) => ast::ObjectProp::Shorthand(ident.sym.to_string()),
        _ => ast::ObjectProp::Other,
    }
}

fn expr_of(e: &Expr) -> ast::Expr {
    match e {
        Expr::Ident(ident) => ast::Expr::Ident(ident.sym.to_string()),
        Expr::Lit(Lit::Str(s)) => ast::Expr::Str(s.value.to_string_lossy().to_string()),
        Expr::Lit(Lit::Num(n)) => ast::Expr::Num(n.value.to_bits()),
        Expr::Member(member) => ast::Expr::Member {
            object: boxed(&member.obj),
            prop: match &member.prop {
                MemberProp::Ident(ident) => ast::MemberProp::Ident(ident.sym.to_string()),
                MemberProp::Computed(computed) => match &*computed.expr {
                    Expr::Lit(Lit::Str(s)) => {
                        ast::MemberProp::Str(s.value.to_string_lossy().to_string())
                    }
                    _ => ast::MemberProp::Other,
                },
                MemberProp::PrivateName(_) => ast::MemberProp::Other,
            },
        },
        Expr::Bin(bin) => ast::Expr::Binary {
            op: match bin.op {
                BinaryOp::NullishCoalescing => ast::BinaryOp::NullishCoalescing,
                BinaryOp::LogicalOr => ast::BinaryOp::LogicalOr,
                _ => ast::BinaryOp::Other,
            },
            left: boxed(&bin.left),
            right: boxed(&bin.right),
        },
        Expr::Paren(inner) => ast::Expr::Paren(boxed(&inner.expr)),
        Expr::TsAs(inner) => ast::Expr::TsAs(boxed(&inner.expr)),
        Expr::TsConstAssertion(inner) => ast::Expr::TsConstAssertion(boxed(&inner.expr)),
        Expr::TsSatisfies(inner) => ast::Expr::TsSatisfies(boxed(&inner.expr)),
        Expr::TsNonNull(inner) => ast::Expr::TsNonNull(boxed(&inner.expr)),
        Expr::Object(obj) => ast::Expr::Object(obj.props.iter().map(prop_of).collect()),
        _ => ast::Expr::Other,
    }
}

struct Declarations {
    found: Vec<ast::Declarator>,
}

impl Visit for Declarations {
    fn visit_var_decl(&mut self, decl: &VarDecl) {
        for d in &decl.decls {
            self.found.push(ast::Declarator {
                pattern: pattern_of(&d.name),
                init: d.init.as_ref().map(|e| expr_of(e)),
            });
        }
        decl.visit_children_with(self);
    }
}

fn pattern_of(pat: &Pat) -> ast::Pattern {
    match pat {
        Pat::Ident(binding) => ast::Pattern::Ident(binding.id.sym.to_string()),
        _ => ast::Pattern::Other,
    }
}

fn name_of(name: &ModuleExportName) -> ast::ExportName {
    match name {
        ModuleExportName::Ident(ident) => ast::ExportName::Ident(ident.sym.to_string()),
        ModuleExportName::Str(s) => ast::ExportName::Str(s.value.to_string_lossy().to_string()),
    }
}

fn specifier_of(specifier: &ExportSpecifier) -> ast::ExportSpecifier {
    match specifier {
        ExportSpecifier::Named(named) => ast::ExportSpecifier::Named {
            local: name_of(&named.orig),
            exported: named.exported.as_ref().map(name_of),
        },
        _ => ast::ExportSpecifier::Other,
    }
}

fn export_of(decl: &ModuleDecl) -> ast::Export {
    match decl {
        ModuleDecl::ExportDecl(export) => match &export.decl {
            Decl::Var(var) => {
                ast::Export::Declaration(var.decls.iter().map(|d| pattern_of(&d.name)).collect())
            }
            _ => ast::Export::Other,
        },
        ModuleDecl::ExportNamed(named) => ast::Export::Named {
            specifiers: named.specifiers.iter().map(specifier_of).collect(),
            has_source: named.src.is_some(),
        },
        ModuleDecl::ExportDefaultExpr(default) => ast::Export::Default(expr_of(&default.expr)),
        _ => ast::Export::Other,
    }
}

fn parse(source: &str) -> Module {
    let cm: Lrc<SourceMap> = Default::default();
    let file = cm.new_source_file(
        FileName::Custom("input.ts".to_string()).into(),
        source.to_string(),
    );
    let mut errors = Vec::new();
    let syntax = Syntax::Typescript(TsSyntax::default());
    parse_file_as_module(&file, syntax, EsVersion::latest(), None, &mut errors)
        .expect("parsed module")
}

fn module_of(source: &str) -> ast::Module {
    let parsed = parse(source);
    let mut declarations = Declarations { found: Vec::new() };
    parsed.visit_with(&mut declarations);
    let mut exports = Vec::new();
    for item in &parsed.body {
        if let ModuleItem::ModuleDecl(decl) = item {
            exports.push(export_of(decl));
        }
    }
    ast::Module { declarators: declarations.found, exports }
}

fn build_map(source: &str) -> EnvAliasMap {
    EnvAliasExtractor::build(&module_of(source))
}

fn build_exports(source: &str) -> EnvAliasMap {
    exported_env_aliases(&module_of(source))
}

fn copy_of(map: &EnvAliasMap) -> EnvAliasMap {
    let mut copy = EnvAliasMap::new();
    for e in &map.entries {
        copy.insert(e.name.clone(), e.value.clone());
    }
    copy
}

#[test]
fn extracts_direct_process_env_alias() {
    let map = build_map(r#"const ORDERS_BASE = process.env.ORDERS_SERVICE_URL;"#);
    assert_eq!(
        map.get("ORDERS_BASE").map(String::as_str),
        Some("ORDERS_SERVICE_URL")
    );
}

#[test]
fn extracts_nullish_coalescing_default_form() {
    let map = build_map(
        r#"const ORDERS_BASE = process.env.ORDERS_SERVICE_URL ?? "http://localhost:3001";"#,
    );
    assert_eq!(
        map.get("ORDERS_BASE").map(String::as_str),
        Some("ORDERS_SERVICE_URL")
    );
}

#[test]
fn extracts_logical_or_default_form() {
    let map = build_map(r#"const BASE = process.env.SERVICE_URL || "http://localhost:3001";"#);
    assert_eq!(map.get("BASE").map(String::as_str), Some("SERVICE_URL"));
}

#[test]
fn extracts_bracket_access_form() {
    let map = build_map(r#"const BASE = process.env["SERVICE_URL"];"#);
    assert_eq!(map.get("BASE").map(String::as_str), Some("SERVICE_URL"));
}

#[test]
fn extracts_let_and_var_forms() {
    let map = build_map(
        r#"let A = process.env.A_URL;
var B = process.env.B_URL ?? "";"#,
    );
    assert_eq!(map.get("A").map(String::as_str), Some("A_URL"));
    assert_eq!(map.get("B").map(String::as_str), Some("B_URL"));
}

#[test]
fn unwraps_paren_nonnull_and_as_casts() {
    let map = build_map(
        r#"const A = (process.env.A_URL);
const B = process.env.B_URL!;
const C = process.env.C_URL as string;"#,
    );
    assert_eq!(map.get("A").map(String::as_str), Some("A_URL"));
    assert_eq!(map.get("B").map(String::as_str), Some("B_URL"));
    assert_eq!(map.get("C").map(String::as_str), Some("C_URL"));
}

#[test]
fn ignores_non_env_bindings() {
    // Not process.env, a concatenated base, and a destructure — all out of scope.
    let map = build_map(
        r#"const HOST = config.host;
const BASE = process.env.X_URL + "/v1";
const { Y_URL } = process.env;"#,
    );
    assert!(!map.get("HOST").is_some());
    // A concatenation is not followed: BASE must not map to a partial name.
    assert!(!map.get("BASE").is_some());
    assert!(!map.get("Y_URL").is_some());
}

#[test]
fn extracts_config_object_properties_as_dotted_keys() {
    // A central config object reads the environment; call targets carry
    // `${config.catalogUrl}` bases.
    let map = build_map(
        r#"const config = {
  ordersApiUrl: process.env.ORDERS_API_URL ?? "http://localhost:4003",
  catalogUrl: process.env.CATALOG_URL ?? "http://localhost:4001",
  timeoutMs: 5000,
};"#,
    );
    assert_eq!(
        map.get("config.ordersApiUrl").map(String::as_str),
        Some("ORDERS_API_URL")
    );
    assert_eq!(
        map.get("config.catalogUrl").map(String::as_str),
        Some("CATALOG_URL")
    );
    // Non-env properties never enter the map.
    assert!(!map.get("config.timeoutMs").is_some());
}

#[test]
fn extracts_config_object_through_transparent_wrappers() {
    let map = build_map(
        r#"const config = {
  base: process.env.BASE_URL,
} as const;
const cfg2 = ({ url: process.env.URL2 }) satisfies Record<string, string>;"#,
    );
    assert_eq!(map.get("config.base").map(String::as_str), Some("BASE_URL"));
    assert_eq!(map.get("cfg2.url").map(String::as_str), Some("URL2"));
}

#[test]
fn config_object_resolves_local_alias_references() {
    // Properties referencing an earlier direct alias (long-hand and
    // shorthand) resolve through the already-collected map.
    let map = build_map(
        r#"const CATALOG_BASE = process.env.CATALOG_URL ?? "http://localhost:4001";
const catalogUrl = process.env.CATALOG_URL_ALT;
const config = { base: CATALOG_BASE, catalogUrl };"#,
    );
    assert_eq!(
        map.get("config.base").map(String::as_str),
        Some("CATALOG_URL")
    );
    assert_eq!(
        map.get("config.catalogUrl").map(String::as_str),
        Some("CATALOG_URL_ALT")
    );
}

#[test]
fn config_object_skips_nested_and_dynamic_shapes() {
    // Nested objects, spreads, and computed keys need data flow — out of
    // scope, must not produce partial/wrong keys.
    let map = build_map(
        r#"const other = { x: process.env.X_URL };
const config = {
  api: { url: process.env.API_URL },
  ...other,
  ["computed"]: process.env.COMPUTED_URL,
};"#,
    );
    assert!(!map.entries.iter().any(|e| e.name.starts_with("config.api")));
    assert!(!map.get("config.x").is_some());
    assert!(!map.get("config.computed").is_some());
    // The helper object itself still resolves normally.
    assert_eq!(map.get("other.x").map(String::as_str), Some("X_URL"));
}

#[test]
fn exports_inline_export_const_object_and_plain_alias() {
    let exports = build_exports(
        r#"export const config = { catalogUrl: process.env.CATALOG_URL ?? "x" };
export const CATALOG_BASE = process.env.CATALOG_URL;"#,
    );
    assert_eq!(
        exports.get("config.catalogUrl").map(String::as_str),
        Some("CATALOG_URL")
    );
    assert_eq!(
        exports.get("CATALOG_BASE").map(String::as_str),
        Some("CATALOG_URL")
    );
}

#[test]
fn exports_follow_named_export_renames() {
    let exports = build_exports(
        r#"const config = { url: process.env.SVC_URL };
export { config as settings };"#,
    );
    assert_eq!(
        exports.get("settings.url").map(String::as_str),
        Some("SVC_URL")
    );
    assert!(!exports.get("config.url").is_some());
}

#[test]
fn exports_default_object_and_default_identifier() {
    let direct = build_exports(r#"export default { url: process.env.D_URL };"#);
    assert_eq!(direct.get("default.url").map(String::as_str), Some("D_URL"));

    let via_ident = build_exports(
        r#"const config = { url: process.env.I_URL };
export default config;"#,
    );
    assert_eq!(
        via_ident.get("default.url").map(String::as_str),
        Some("I_URL")
    );
}

#[test]
fn exports_ignore_reexports_and_unexported_locals() {
    let exports = build_exports(
        r#"const hidden = { url: process.env.HIDDEN_URL };
export { config } from "./elsewhere";
export * from "./other";"#,
    );
    assert!(exports.is_empty());
}

#[test]
fn merge_maps_named_default_and_namespace_imports_to_local_names() {
    let mut exports = EnvAliasMap::new();
    exports.insert("config.catalogUrl".to_string(), "CATALOG_URL".to_string());
    exports.insert("CATALOG_BASE".to_string(), "CATALOG_URL".to_string());
    exports.insert("default.url".to_string(), "D_URL".to_string());

    let symbol = |local: &str, imported: &str, kind: SymbolKind| ImportedSymbol {
        local_name: local.to_string(),
        imported_name: imported.to_string(),
        source: "./config".to_string(),
        kind,
    };

    let mut imported = Vec::new();
    // Renamed named import of the config object.
    imported.push(symbol("cfg", "config", SymbolKind::Named));
    // Named import of a plain alias.
    imported.push(symbol("CATALOG_BASE", "CATALOG_BASE", SymbolKind::Named));
    // Default import.
    imported.push(symbol("appConfig", "appConfig", SymbolKind::Default));
    // Namespace import.
    imported.push(symbol("ns", "ns", SymbolKind::Namespace));

    let mut aliases = EnvAliasMap::new();
    // A locally-defined alias must never be clobbered by an import.
    aliases.insert("CATALOG_BASE".to_string(), "LOCAL_WINS".to_string());

    let mut modules = Vec::new();
    for symbol in &imported {
        assert_eq!(symbol.source, "./config");
        modules.push(Some(copy_of(&exports)));
    }
    merge_imported_env_aliases(&mut aliases, &imported, &modules);

    assert_eq!(
        aliases.get("cfg.catalogUrl").map(String::as_str),
        Some("CATALOG_URL")
    );
    assert_eq!(
        aliases.get("CATALOG_BASE").map(String::as_str),
        Some("LOCAL_WINS")
    );
    assert_eq!(
        aliases.get("appConfig.url").map(String::as_str),
        Some("D_URL")
    );
    assert_eq!(
        aliases.get("ns.config.catalogUrl").map(String::as_str),
        Some("CATALOG_URL")
    );
    assert_eq!(
        aliases.get("ns.CATALOG_BASE").map(String::as_str),
        Some("CATALOG_URL")
    );
}

#[test]
fn resolves_dotted_config_property_target() {
    let mut aliases = EnvAliasMap::new();
    aliases.insert("config.catalogUrl".to_string(), "CATALOG_URL".to_string());

    assert_eq!(
        resolve_target_env_alias("${config.catalogUrl}/api/v2/products/${id}", &aliases)
            .as_deref(),
        Some("${process.env.CATALOG_URL}/api/v2/products/${id}")
    );
}

#[test]
fn resolves_leading_alias_in_target() {
    let mut aliases = EnvAliasMap::new();
    aliases.insert("ORDERS_BASE".to_string(), "ORDERS_SERVICE_URL".to_string());

    assert_eq!(
        resolve_target_env_alias("${ORDERS_BASE}/orders/${orderId}", &aliases).as_deref(),
        Some("${process.env.ORDERS_SERVICE_URL}/orders/${orderId}")
    );
}

#[test]
fn resolves_leading_alias_past_wrapper_backtick() {
    let mut aliases = EnvAliasMap::new();
    aliases.insert("ORDERS_BASE".to_string(), "ORDERS_SERVICE_URL".to_string());

    assert_eq!(
        resolve_target_env_alias("`${ORDERS_BASE}/orders/${id}`", &aliases).as_deref(),
        Some("`${process.env.ORDERS_SERVICE_URL}/orders/${id}`")
    );
}

#[test]
fn leaves_unknown_and_mid_path_interpolations_untouched() {
    let mut aliases = EnvAliasMap::new();
    aliases.insert("ORDERS_BASE".to_string(), "ORDERS_SERVICE_URL".to_string());

    // Unknown leading var: not an alias.
    assert!(resolve_target_env_alias("${API_URL}/users", &aliases).is_none());
    // A path parameter mid-URL must never be treated as a base-URL alias.
    assert!(resolve_target_env_alias("/orders/${ORDERS_BASE}", &aliases).is_none());
    // Empty alias map short-circuits.
    assert!(resolve_target_env_alias("${ORDERS_BASE}/x", &EnvAliasMap::new()).is_none());
}

#[test]
fn a_later_declaration_replaces_an_earlier_one() {
    let map = build_map("let A = process.env.FIRST; { let A = process.env.SECOND; }");
    assert_eq!(map.get("A").map(String::as_str), Some("SECOND"));
    assert_eq!(map.entries.len(), 1);
}

#[test]
fn declarations_inside_an_initialiser_come_after_it() {
    let map = build_map(
        "const A = process.env.OUTER, f = () => { const A = process.env.INNER; return A; };",
    );
    assert_eq!(map.get("A").map(String::as_str), Some("INNER"));
}

#[test]
fn string_keys_and_renamed_string_exports() {
    let exports = build_exports(
        r#"const c = { "base-url": process.env["BASE"] };
export { c as "the config" };"#,
    );
    assert_eq!(
        exports.get("the config.base-url").map(String::as_str),
        Some("BASE")
    );
}

#[test]
fn an_import_that_does_not_resolve_adds_nothing() {
    let mut aliases = EnvAliasMap::new();
    let imported = vec![ImportedSymbol {
        local_name: "config".to_string(),
        imported_name: "config".to_string(),
        source: "elsewhere".to_string(),
        kind: SymbolKind::Named,
    }];
    merge_imported_env_aliases(&mut aliases, &imported, &vec![None]);
    assert!(aliases.is_empty());
}

#[test]
fn local_aliases_win_over_every_kind_of_import() {
    let mut exports = EnvAliasMap::new();
    exports.insert("default".to_string(), "IMPORTED".to_string());
    exports.insert("default.url".to_string(), "IMPORTED".to_string());
    let mut aliases = EnvAliasMap::new();
    aliases.insert("c".to_string(), "LOCAL".to_string());
    aliases.insert("c.default".to_string(), "LOCAL".to_string());
    let symbol = |kind: SymbolKind| ImportedSymbol {
        local_name: "c".to_string(),
        imported_name: "c".to_string(),
        source: "./c".to_string(),
        kind,
    };
    let imported = vec![symbol(SymbolKind::Default), symbol(SymbolKind::Namespace)];
    let modules = vec![Some(copy_of(&exports)), Some(copy_of(&exports))];
    merge_imported_env_aliases(&mut aliases, &imported, &modules);
    assert_eq!(aliases.get("c").map(String::as_str), Some("LOCAL"));
    assert_eq!(aliases.get("c.default").map(String::as_str), Some("LOCAL"));
    assert_eq!(aliases.get("c.url").map(String::as_str), Some("IMPORTED"));
    assert_eq!(
        aliases.get("c.default.url").map(String::as_str),
        Some("IMPORTED")
    );
}

#[test]
fn an_unclosed_interpolation_is_left_alone() {
    let mut aliases = EnvAliasMap::new();
    aliases.insert("BASE".to_string(), "B".to_string());
    assert!(resolve_target_env_alias("${BASE", &aliases).is_none());
    assert!(resolve_target_env_alias("", &aliases).is_none());
    assert_eq!(
        resolve_target_env_alias("'\"${BASE}", &aliases).as_deref(),
        Some("'\"${process.env.B}")
    );
}

#[test]
fn a_later_import_takes_the_place_of_an_earlier_one() {
    let symbol = |local: &str, source: &str| ImportedSymbol {
        local_name: local.to_string(),
        imported_name: local.to_string(),
        source: source.to_string(),
        kind: SymbolKind::Named,
    };
    let known = add_symbols(vec![], vec![symbol("a", "./1"), symbol("b", "./1")]);
    let all = add_symbols(known, vec![symbol("a", "./2"), symbol("c", "./2"), symbol("c", "./3")]);
    let seen: Vec<(&str, &str)> =
        all.iter().map(|s| (s.local_name.as_str(), s.source.as_str())).collect();
    assert_eq!(seen, vec![("b", "./1"), ("a", "./2"), ("c", "./3")]);
}

#[test]
fn only_local_names_and_plain_bindings_are_exported() {
    let shown = |source: &str| {
        let aliases = exported_env_aliases(&module_of(source));
        (aliases.get("a").is_some(), aliases.get("b").is_some(), aliases.get("c d").is_some())
    };
    let base = "const a = process.env.A;\n";
    assert_eq!(shown(&format!("{base}export {{ a }};")), (true, false, false));
    assert_eq!(shown(&format!("{base}export {{ a as b, a as \"c d\" }};")), (false, true, true));
    assert_eq!(shown(&format!("{base}export {{ a }} from \"./x\";")), (false, false, false));
    assert_eq!(shown("export const a = process.env.A, [b] = [1];"), (true, false, false));
}
