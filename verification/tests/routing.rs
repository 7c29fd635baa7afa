use carrick::file_based_router::{
    builtin_conventions, derive_route, is_derivable, normalize_rel, sanitize_param, DerivedRoute,
    MethodSource, RoutingConvention,
};

fn next() -> Vec<RoutingConvention> {
    vec![
        RoutingConvention::nextjs_app(),
        RoutingConvention::nextjs_pages(),
    ]
}

fn route(p: &str) -> Option<DerivedRoute> {
    derive_route(p, &next())
}

// --- App Router ---

#[test]
fn app_router_static() {
    let r = route("app/users/route.ts").unwrap();
    assert_eq!(r.path, "/users");
    assert_eq!(r.method_source, MethodSource::ExportName);
    assert_eq!(r.convention, "nextjs-app");
}

#[test]
fn app_router_root() {
    assert_eq!(route("app/route.ts").unwrap().path, "/");
}

#[test]
fn app_router_dynamic() {
    assert_eq!(route("app/users/[id]/route.ts").unwrap().path, "/users/:id");
}

#[test]
fn app_router_nested_dynamic() {
    assert_eq!(
        route("app/teams/[teamId]/members/[userId]/route.ts")
            .unwrap()
            .path,
        "/teams/:teamId/members/:userId"
    );
}

#[test]
fn app_router_catch_all() {
    assert_eq!(
        route("app/files/[...slug]/route.ts").unwrap().path,
        "/files/**"
    );
}

#[test]
fn app_router_optional_catch_all() {
    assert_eq!(
        route("app/shop/[[...slug]]/route.ts").unwrap().path,
        "/shop/**"
    );
}

#[test]
fn app_router_strips_route_groups() {
    assert_eq!(
        route("app/(marketing)/about/route.ts").unwrap().path,
        "/about"
    );
}

#[test]
fn app_router_src_prefix() {
    assert_eq!(route("src/app/health/route.ts").unwrap().path, "/health");
}

#[test]
fn app_router_ignores_non_route_files() {
    assert!(route("app/users/page.tsx").is_none());
    assert!(route("app/users/layout.tsx").is_none());
    assert!(route("app/users/component.ts").is_none());
}

// --- Pages Router ---

#[test]
fn pages_api_static() {
    let r = route("pages/api/users.ts").unwrap();
    assert_eq!(r.path, "/api/users");
    assert_eq!(r.method_source, MethodSource::DefaultExport);
    assert_eq!(r.convention, "nextjs-pages");
}

#[test]
fn pages_api_index_collapses() {
    assert_eq!(
        route("pages/api/users/index.ts").unwrap().path,
        "/api/users"
    );
    assert_eq!(route("pages/api/index.ts").unwrap().path, "/api");
}

#[test]
fn pages_api_dynamic_filename() {
    assert_eq!(
        route("pages/api/users/[id].ts").unwrap().path,
        "/api/users/:id"
    );
}

#[test]
fn pages_api_catch_all_filename() {
    assert_eq!(
        route("pages/api/proxy/[...path].ts").unwrap().path,
        "/api/proxy/**"
    );
}

#[test]
fn pages_api_src_prefix() {
    assert_eq!(route("src/pages/api/ping.ts").unwrap().path, "/api/ping");
}

#[test]
fn pages_api_skips_private_files() {
    assert!(route("pages/api/_middleware.ts").is_none());
}

// --- Astro ---

fn astro_route(p: &str) -> Option<DerivedRoute> {
    derive_route(p, &vec![RoutingConvention::astro()])
}

#[test]
fn astro_static_endpoint() {
    // No forced /api prefix: "api" here is just a literal directory segment.
    let r = astro_route("src/pages/api/users.ts").unwrap();
    assert_eq!(r.path, "/api/users");
    // Methods come from named exports, not a single default handler.
    assert_eq!(r.method_source, MethodSource::ExportName);
    assert_eq!(r.convention, "astro");
}

#[test]
fn astro_top_level_endpoint() {
    assert_eq!(astro_route("src/pages/health.ts").unwrap().path, "/health");
}

#[test]
fn astro_index_collapses() {
    assert_eq!(astro_route("src/pages/index.ts").unwrap().path, "/");
    assert_eq!(astro_route("src/pages/api/index.ts").unwrap().path, "/api");
}

#[test]
fn astro_dynamic_filename() {
    assert_eq!(
        astro_route("src/pages/posts/[id].ts").unwrap().path,
        "/posts/:id"
    );
}

#[test]
fn astro_rest_param() {
    assert_eq!(
        astro_route("src/pages/files/[...path].ts").unwrap().path,
        "/files/**"
    );
}

#[test]
fn astro_javascript_endpoint() {
    assert_eq!(astro_route("src/pages/ping.js").unwrap().path, "/ping");
}

#[test]
fn astro_ignores_page_components_and_private_files() {
    // `.astro` files are HTML pages, not API endpoints.
    assert!(astro_route("src/pages/about.astro").is_none());
    // `_`-prefixed files are excluded from Astro routing.
    assert!(astro_route("src/pages/_helpers.ts").is_none());
    // Pages outside `src/pages` are not endpoints.
    assert!(astro_route("src/lib/db.ts").is_none());
}

#[test]
fn astro_gated_on_framework_detection() {
    assert!(builtin_conventions(&vec!["express".to_string()]).is_empty());
    let astro = builtin_conventions(&vec!["Astro".to_string()]);
    assert_eq!(astro.len(), 1);
    assert_eq!(astro[0].name, "astro");
}

// --- Negative / boundary ---

#[test]
fn non_route_paths_return_none() {
    assert!(route("lib/db.ts").is_none());
    assert!(route("components/Button.tsx").is_none());
    // "app" prefix must respect segment boundaries.
    assert!(route("application/route.ts").is_none());
    // pages routes that aren't under /api are not API endpoints here.
    assert!(route("pages/about.tsx").is_none());
}

#[test]
fn longest_root_wins() {
    // Both "pages/api" and "src/pages/api" exist; the src-prefixed file must
    // resolve via the longer root, not leave "src" in the path.
    assert_eq!(route("src/pages/api/x.ts").unwrap().path, "/api/x");
}

#[test]
fn builtin_conventions_gated_on_framework() {
    assert!(builtin_conventions(&vec!["express".to_string()]).is_empty());
    let next = builtin_conventions(&vec!["Next.js".to_string()]);
    assert_eq!(next.len(), 2);
}

// --- What holds of every convention ---

#[test]
fn longest_root_wins_whatever_the_order() {
    let mut c = RoutingConvention::nextjs_pages();
    c.root_globs = vec!["src".to_string(), "src/pages/api".to_string()];
    assert_eq!(derive_route("src/pages/api/x.ts", &vec![c]).unwrap().path, "/api/x");
    let mut c = RoutingConvention::nextjs_pages();
    c.root_globs = vec!["src/pages/api".to_string(), "src".to_string()];
    assert_eq!(derive_route("src/pages/api/x.ts", &vec![c]).unwrap().path, "/api/x");
}

#[test]
fn builtin_conventions_are_derivable() {
    let all = builtin_conventions(&vec!["next".to_string(), "astro".to_string()]);
    assert_eq!(all.len(), 3);
    assert!(is_derivable("app/[id]/route.ts", &all));
    assert!(is_derivable("src/pages/[...x].ts", &all));
}

#[test]
fn routes_begin_with_a_slash() {
    for p in ["app/route.ts", "app/a/b/route.ts", "pages/api/x.ts"] {
        assert!(route(p).unwrap().path.starts_with('/'));
    }
}

#[test]
fn windows_separators_and_leading_dots_are_normalized() {
    assert_eq!(normalize_rel(".\\app\\users\\route.ts"), "app/users/route.ts");
    assert_eq!(route("./app/users/route.ts").unwrap().path, "/users");
    assert_eq!(route("/app/users/route.ts").unwrap().path, "/users");
}

#[test]
fn parameter_names_lose_dots_and_white_space() {
    assert_eq!(sanitize_param(" a.b "), "ab");
}

#[test]
fn the_first_convention_that_claims_a_file_decides() {
    let parts = |r: Option<DerivedRoute>| r.map(|r| (r.path, r.convention));
    let alone = parts(derive_route("src/pages/api/a.ts", &vec![RoutingConvention::nextjs_pages()]));
    let both = |a: RoutingConvention, b: RoutingConvention| {
        parts(derive_route("src/pages/api/a.ts", &vec![a, b]))
    };
    assert_eq!(
        both(RoutingConvention::nextjs_pages(), RoutingConvention::astro()),
        alone
    );
    assert_eq!(
        both(RoutingConvention::nextjs_app(), RoutingConvention::nextjs_pages()),
        alone
    );
    assert!(alone.is_some());
    assert!(derive_route("src/pages/api/a.ts", &vec![]).is_none());
}

#[test]
fn the_spelling_of_a_path_does_not_change_its_route() {
    let path = |p: &str| route(p).map(|r| r.path);
    let plain = path("app/users/[id]/route.ts");
    assert_eq!(plain.as_deref(), Some("/users/:id"));
    assert_eq!(path("./app/users/[id]/route.ts"), plain);
    assert_eq!(path("././app/users/[id]/route.ts"), plain);
    assert_eq!(path("app\\users\\[id]\\route.ts"), plain);
    assert_eq!(path(".\\app/users\\[id]/route.ts"), plain);
}
