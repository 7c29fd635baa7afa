use carrick::analyzer::ApiAnalysisResult;
use carrick::findings::{EndpointRef, Finding, PackageVersionRef, PrDelta, Topology};
use carrick::formatter::{
    cell, code_cell, code_span, endpoints_overlap, format_analysis_results,
    format_connectivity_section, format_pr_delta, group_env_var_suggestions, join_human,
    FormattedOutput,
};
use carrick::tier;

/// A poly-repo topology with peers, so connectivity findings are
/// conclusive (has_baseline == true).
fn topology_baseline() -> Topology {
    Topology {
        repo_name: "api-server".to_string(),
        local_service_count: 1,
        peer_repo_count: 2,
    }
}

/// A lone single-service repo with no peers (has_baseline == false): the
/// first-repo-indexed framing.
fn topology_first_repo() -> Topology {
    Topology {
        repo_name: "api-server".to_string(),
        local_service_count: 1,
        peer_repo_count: 0,
    }
}

fn result_with(findings: Vec<Finding>) -> ApiAnalysisResult {
    ApiAnalysisResult {
        endpoints: vec![],
        calls: vec![],
        findings,
        dependency_conflicts: vec![],
        verified_endpoints: vec![],
        verified_provenance: vec![],
        detected_graphql_libraries: vec![],
        graphql_operations_indexed: false,
        cross_repo_matches: vec![],
    }
}

fn type_mismatch_finding() -> Finding {
    Finding::type_mismatch(
        "GET",
        "/api/users",
        None,
        vec!["web/src/client.ts:12".to_string()],
        "UserResponse",
        "User[]",
        "Property 'role' is missing",
    )
}

fn major_conflict_finding() -> Finding {
    Finding::dependency_conflict(
        "zod",
        tier::MAJOR,
        vec![
            PackageVersionRef {
                repo: "billing".to_string(),
                version: "3.22.0".to_string(),
                source: "billing/package.json".to_string(),
            },
            PackageVersionRef {
                repo: "web".to_string(),
                version: "4.0.0".to_string(),
                source: "web/package.json".to_string(),
            },
        ],
    )
}

#[test]
fn test_type_mismatch_renders_as_contract_risk() {
    let output = format_analysis_results(
        result_with(vec![type_mismatch_finding()]),
        &topology_baseline(),
        None,
    );

    // The endpoint, both type names, and the compiler error surface as a
    // contract-risk table row, and the risk headlines the verdict.
    assert!(output.contains("Contract risks (1)"));
    assert!(output.contains("GET /api/users"));
    assert!(output.contains("UserResponse"));
    assert!(output.contains("User[]"));
    assert!(output.contains("Property 'role' is missing"));
    assert!(output.contains("> [!CAUTION]"));
    assert!(output.contains("<!-- CARRICK_ISSUE_COUNT:1 -->"));
}

#[test]
fn test_method_mismatch_renders_as_contract_risk() {
    let finding = Finding::method_mismatch(
        "GET",
        "/api/orders",
        None,
        vec!["web/src/orders.ts:4".to_string()],
        "POST",
    );
    let output =
        format_analysis_results(result_with(vec![finding]), &topology_baseline(), None);

    assert!(output.contains("Contract risks (1)"));
    assert!(output.contains("GET /api/orders"));
    assert!(output.contains("call uses `GET` but the producer expects `POST`"));
    assert!(output.contains("> [!CAUTION]"));
    // A method mismatch is a risk even without a connectivity baseline.
    let no_baseline = format_analysis_results(
        result_with(vec![Finding::method_mismatch(
            "GET",
            "/api/orders",
            None,
            vec![],
            "POST",
        )]),
        &topology_first_repo(),
        None,
    );
    assert!(no_baseline.contains("<!-- CARRICK_ISSUE_COUNT:1 -->"));
}

#[test]
fn test_graphql_banner_renders_when_libraries_detected() {
    let mut result = result_with(vec![]);
    result.detected_graphql_libraries =
        vec!["graphql-request".to_string(), "@apollo/client".to_string()];
    let output = format_analysis_results(result, &topology_baseline(), None);
    assert!(output.contains("GraphQL detected"));
    assert!(output.contains("graphql-request"));
    assert!(output.contains("@apollo/client"));
    assert!(output.contains("no schema or operation documents were found"));
}

#[test]
fn test_graphql_banner_absent_when_operations_indexed() {
    let mut result = result_with(vec![]);
    result.detected_graphql_libraries = vec!["@apollo/client".to_string()];
    result.graphql_operations_indexed = true;
    let output = format_analysis_results(result, &topology_baseline(), None);
    assert!(!output.contains("GraphQL detected"));
}

#[test]
fn test_graphql_banner_absent_when_no_libraries() {
    let output = format_analysis_results(result_with(vec![]), &topology_baseline(), None);
    assert!(!output.contains("GraphQL detected"));
}

#[test]
fn test_no_issues_output() {
    let output = format_analysis_results(result_with(vec![]), &topology_baseline(), None);

    assert!(output.contains("All cross-service calls match the indexed contracts"));
    assert!(output.contains("CARRICK_ISSUE_COUNT:0"));
}

/// The machine markers are the Action's contract: the terminal output must
/// carry the delimiters and a parseable issue count.
#[test]
fn test_terminal_output_carries_machine_markers() {
    for result in [
        result_with(vec![]),
        result_with(vec![type_mismatch_finding()]),
    ] {
        let formatted = FormattedOutput::new(result, topology_baseline(), None);
        assert!(formatted.content.contains("<!-- CARRICK_OUTPUT_START -->"));
        assert!(formatted.content.contains("<!-- CARRICK_OUTPUT_END -->"));
        assert!(formatted.content.contains("CARRICK_ISSUE_COUNT:"));
    }
}

#[test]
fn test_verified_section_renders_when_matches_present() {
    let mut result = result_with(vec![]);
    result.verified_endpoints = vec![
        ("GET".to_string(), "/api/users".to_string()),
        ("POST".to_string(), "/api/orders".to_string()),
    ];

    let output = format_analysis_results(result, &topology_baseline(), None);

    assert!(output.contains("Verified (2)"));
    assert!(output.contains("`GET` | `/api/users`"));
    assert!(output.contains("`POST` | `/api/orders`"));
}

#[test]
fn test_verified_section_singular_label() {
    let mut result = result_with(vec![]);
    result.verified_endpoints = vec![("GET".to_string(), "/api/users".to_string())];
    let output = format_analysis_results(result, &topology_baseline(), None);
    assert!(output.contains("Verified (1)"));
}

#[test]
fn test_verified_section_renders_on_clean_run() {
    // Even when there are zero issues, a clean run with verified
    // matches must surface them — that's the whole point of the
    // section.
    let mut result = result_with(vec![]);
    result.verified_endpoints = vec![("GET".to_string(), "/api/users".to_string())];
    let output = format_analysis_results(result, &topology_baseline(), None);

    assert!(output.contains("All cross-service calls match the indexed contracts"));
    assert!(output.contains("Verified (1)"));
}

#[test]
fn test_env_var_findings_group_into_configuration_section() {
    // Two findings for the same (env_var, method, path) — e.g. one per
    // matcher pass — regroup into a single suggestion with merged,
    // deduplicated call sites.
    let findings = vec![
        Finding::env_var_call(
            "GET",
            "/orders",
            "ORDER_SERVICE_URL",
            vec!["src/orders.ts:3".to_string(), "src/retry.ts:9".to_string()],
        ),
        Finding::env_var_call(
            "GET",
            "/orders",
            "ORDER_SERVICE_URL",
            vec!["src/orders.ts:3".to_string()],
        ),
    ];
    let output = format_analysis_results(result_with(findings), &topology_baseline(), None);

    assert!(output.contains("Configuration suggestions (1)"));
    assert!(output.contains("`GET /orders` using **[ORDER_SERVICE_URL]** (2 call sites)"));
    assert!(output.contains("`src/orders.ts:3`"));
    assert!(output.contains("`src/retry.ts:9`"));
    // Advisory findings never gate CI.
    assert!(output.contains("<!-- CARRICK_ISSUE_COUNT:0 -->"));
}

#[test]
fn test_missing_endpoint_lists_call_sites() {
    let finding = Finding::missing_endpoint(
        "POST",
        "/api/orders",
        None,
        vec!["src/client.ts:8".to_string()],
    );
    let output =
        format_analysis_results(result_with(vec![finding]), &topology_baseline(), None);

    assert!(output.contains("**Missing (1)**"));
    assert!(output.contains("| `POST` | `/api/orders` | `src/client.ts:8` |"));
    assert!(output.contains("<!-- CARRICK_ISSUE_COUNT:1 -->"));
}

#[test]
fn test_no_baseline_excludes_connectivity_from_headline_count() {
    // First repo indexed (has_baseline = false): connectivity findings are
    // inconclusive (no peers to match against) so they must be kept OUT of
    // the headline CARRICK_ISSUE_COUNT, yet the section must still render —
    // framed as informational "Observations".
    let findings = vec![
        Finding::orphaned_endpoint("GET", "/api/users", None),
        Finding::orphaned_endpoint("PUT", "/api/sessions", None),
    ];
    let output = format_analysis_results(result_with(findings), &topology_first_repo(), None);

    // Headline count excludes the two connectivity findings → zero issues.
    assert!(
        output.contains("<!-- CARRICK_ISSUE_COUNT:0 -->"),
        "first-run connectivity findings must not inflate the headline count, got:\n{}",
        output
    );
    // But the connectivity section still renders, framed as observations.
    assert!(
        output.contains("Connectivity Observations"),
        "connectivity section must still render as informational observations, got:\n{}",
        output
    );
    assert!(
        output.contains("First repo indexed"),
        "first-run observations must carry the informational framing, got:\n{}",
        output
    );
    // The orphaned endpoints are rendered as Method/Path table rows.
    assert!(output.contains("`/api/users`"));
    assert!(output.contains("`/api/sessions`"));
    // Headline phrasing reflects the informational framing, not "gaps".
    assert!(output.contains("connectivity observations"));
}

#[test]
fn test_baseline_counts_connectivity_gaps() {
    let findings = vec![
        Finding::missing_endpoint("GET", "/a", None, vec![]),
        Finding::orphaned_endpoint("POST", "/b", None),
    ];
    let output = format_analysis_results(result_with(findings), &topology_baseline(), None);
    assert!(output.contains("<!-- CARRICK_ISSUE_COUNT:2 -->"));
    assert!(output.contains("connectivity gaps"));
    assert!(output.contains("> [!WARNING]"));
}

#[test]
fn test_monorepo_header_and_scope() {
    let topology = Topology {
        repo_name: "platform".to_string(),
        local_service_count: 3,
        peer_repo_count: 0,
    };
    // A monorepo has a cross-service baseline even with no peers, so a
    // type mismatch headlines as a contract risk.
    let output =
        format_analysis_results(result_with(vec![type_mismatch_finding()]), &topology, None);

    assert!(output.contains("## 🪢 Carrick · monorepo (3 services)"));
    assert!(output.contains("> [!CAUTION]"));
    assert!(output.contains("contract risk"));
    assert!(output.contains("3 services"));
}

#[test]
fn test_single_repo_clean_header() {
    let topology = Topology {
        repo_name: "api-server".to_string(),
        local_service_count: 1,
        peer_repo_count: 0,
    };
    let output = format_analysis_results(result_with(vec![]), &topology, None);

    assert!(output.contains("## 🪢 Carrick · api-server"));
    assert!(output.contains("> [!TIP]"));
    assert!(output.contains("across api-server"));
}

#[test]
fn test_monorepo_with_peers_scope_has_no_double_across() {
    // A monorepo that also has peer repos is the one topology where the
    // scope phrase and the verdict's "across" could collide. The service
    // count lives in the header suffix; the scope reports repos.
    let topology = Topology {
        repo_name: "platform".to_string(),
        local_service_count: 3,
        peer_repo_count: 2,
    };
    let output =
        format_analysis_results(result_with(vec![major_conflict_finding()]), &topology, None);

    assert!(output.contains("## 🪢 Carrick · monorepo (3 services)"));
    assert!(output.contains("across 3 repos"));
    assert!(
        !output.contains("services across"),
        "the verdict must not double 'across', got:\n{}",
        output
    );
}

#[test]
fn test_verdict_warning_on_major_dependency_conflict() {
    let output = format_analysis_results(
        result_with(vec![major_conflict_finding()]),
        &topology_baseline(),
        None,
    );

    // No contract risks, but a counted issue → amber, not red, and the
    // major tier counts toward the headline.
    assert!(output.contains("> [!WARNING]"));
    assert!(!output.contains("> [!CAUTION]"));
    assert!(output.contains("dependency conflict"));
    assert!(output.contains("Major version conflicts (1)"));
    assert!(output.contains("<!-- CARRICK_ISSUE_COUNT:1 -->"));
}

#[test]
fn test_unparseable_dependency_conflict_is_advisory() {
    let finding = Finding::dependency_conflict(
        "internal-lib",
        tier::UNPARSEABLE,
        vec![PackageVersionRef {
            repo: "billing".to_string(),
            version: "workspace:*".to_string(),
            source: "billing/package.json".to_string(),
        }],
    );
    let output =
        format_analysis_results(result_with(vec![finding]), &topology_baseline(), None);

    // Listed, but never counted and never escalating past NOTE.
    assert!(output.contains("Unparseable version pins"));
    assert!(output.contains("<!-- CARRICK_ISSUE_COUNT:0 -->"));
    assert!(output.contains("> [!NOTE]"));
}

#[test]
fn test_no_baseline_without_connectivity_omits_baseline_note() {
    // A lone repo with only a configuration suggestion (no connectivity
    // findings) must not claim "connectivity findings are informational".
    let findings = vec![Finding::env_var_call(
        "GET",
        "/orders",
        "ORDER_SERVICE_URL",
        vec!["src/orders.ts".to_string()],
    )];
    let output = format_analysis_results(result_with(findings), &topology_first_repo(), None);

    assert!(output.contains("configuration suggestion"));
    assert!(
        !output.contains("First repo indexed"),
        "no connectivity findings means no baseline note, got:\n{}",
        output
    );
}

#[test]
fn test_no_decorative_emoji_in_output() {
    // Severity is carried by GitHub alert blocks, not emoji. Only the 🪢
    // brand mark in the header is allowed.
    let findings = vec![
        type_mismatch_finding(),
        Finding::orphaned_endpoint("GET", "/legacy/ping", Some("billing".to_string())),
    ];
    let output = format_analysis_results(result_with(findings), &topology_baseline(), None);

    for banned in ["✅", "ℹ️", "⚠️", "❌", "🔁"] {
        assert!(
            !output.contains(banned),
            "decorative emoji {} must not appear, got:\n{}",
            banned,
            output
        );
    }
    // The brand mark is intentionally retained.
    assert!(output.contains("🪢"));
}

#[test]
fn test_orphaned_endpoints_show_service_when_attributed() {
    // When orphans carry an owning service, the connectivity table gains a
    // Service column naming where each lives.
    let findings = vec![
        Finding::orphaned_endpoint("GET", "/users", Some("auth".to_string())),
        Finding::orphaned_endpoint("POST", "/charges", Some("billing".to_string())),
    ];
    let output = format_analysis_results(result_with(findings), &topology_baseline(), None);

    assert!(output.contains("| Method | Path | Service |"));
    assert!(output.contains("| `GET` | `/users` | `auth` |"));
    assert!(output.contains("| `POST` | `/charges` | `billing` |"));
}

#[test]
fn test_orphaned_endpoints_omit_service_column_when_unattributed() {
    // A lone repo has no service attribution, so the column is dropped
    // rather than rendering an empty cell per row.
    let findings = vec![Finding::orphaned_endpoint("GET", "/legacy/ping", None)];
    let output = format_analysis_results(result_with(findings), &topology_first_repo(), None);

    assert!(!output.contains("Service |"));
    assert!(output.contains("| `GET` | `/legacy/ping` |"));
}

#[test]
fn test_cell_escapes_pipes_and_collapses_line_breaks() {
    assert_eq!(cell("a|b"), "a\\|b");
    assert_eq!(cell("a\r\nb"), "a b");
    assert_eq!(cell("a\rb"), "a b");
    assert_eq!(cell("a\nb"), "a b");
    // code_cell additionally drops backticks for inline-code cells.
    assert_eq!(code_cell("x`y|z"), "xy\\|z");
}

#[test]
fn test_orphaned_mixed_attribution_uses_dash_and_escapes_cells() {
    // When the Service column is shown, an unattributed row gets a dash, and
    // any pipe in a value is escaped so it can't break the table.
    let findings = vec![
        // Backtick must be stripped so it can't break the code span.
        Finding::orphaned_endpoint("GET", "/users", Some("au`th".to_string())),
        Finding::orphaned_endpoint("QUERY", "weird|field", None),
    ];
    let output = format_analysis_results(result_with(findings), &topology_baseline(), None);

    assert!(output.contains("| `GET` | `/users` | `auth` |"));
    // Unattributed row → dash, and the pipe in the path is escaped.
    assert!(output.contains("| `QUERY` | `weird\\|field` | - |"));
}

#[test]
fn test_pr_delta_strip_lists_new_endpoints() {
    let delta = PrDelta {
        new_endpoints: vec![
            EndpointRef {
                method: "POST".to_string(),
                path: "/v2/invoices".to_string(),
                service: Some("billing".to_string()),
            },
            EndpointRef {
                method: "GET".to_string(),
                path: "/charges".to_string(),
                service: None,
            },
        ],
        removed_endpoints: vec![],
    };
    let output = format_analysis_results(
        result_with(vec![major_conflict_finding()]),
        &topology_baseline(),
        Some(&delta),
    );

    assert!(output.contains("**In this PR**"));
    assert!(output.contains("- New endpoint `POST /v2/invoices` (`billing`)"));
    assert!(output.contains("- New endpoint `GET /charges`"));
    // The strip sits above the findings sections.
    let strip_at = output.find("**In this PR**").unwrap();
    let deps_at = output.find("Dependency conflicts").unwrap();
    assert!(strip_at < deps_at, "the strip must precede the sections");
}

#[test]
fn test_pr_delta_absent_renders_no_strip() {
    let output = format_analysis_results(result_with(vec![]), &topology_baseline(), None);
    assert!(!output.contains("In this PR"));
}

#[test]
fn test_pr_delta_strip_renders_on_clean_run() {
    // A PR can add an endpoint without introducing any issue, so the strip
    // must also appear on the clean (TIP) path.
    let delta = PrDelta {
        new_endpoints: vec![EndpointRef {
            method: "GET".to_string(),
            path: "/health".to_string(),
            service: None,
        }],
        removed_endpoints: vec![],
    };
    let output =
        format_analysis_results(result_with(vec![]), &topology_baseline(), Some(&delta));

    assert!(output.contains("> [!TIP]"));
    assert!(output.contains("**In this PR**"));
    assert!(output.contains("- New endpoint `GET /health`"));
}

#[test]
fn test_pr_delta_lists_removed_endpoints_and_flags_still_consumed() {
    // A removed endpoint whose (method, path) still shows up as a missing
    // endpoint is a producer this PR deletes out from under a consumer.
    let delta = PrDelta {
        new_endpoints: vec![],
        removed_endpoints: vec![
            EndpointRef {
                method: "DELETE".to_string(),
                path: "/api/sessions".to_string(),
                service: None,
            },
            EndpointRef {
                method: "GET".to_string(),
                path: "/api/unused".to_string(),
                service: Some("auth".to_string()),
            },
        ],
    };
    let findings = vec![Finding::missing_endpoint(
        "DELETE",
        "/api/sessions",
        None,
        vec!["web/src/auth.ts:9".to_string()],
    )];
    let output =
        format_analysis_results(result_with(findings), &topology_baseline(), Some(&delta));

    assert!(output.contains("- Removed `DELETE /api/sessions` — ⚠ still consumed"));
    assert!(output.contains("- Removed `GET /api/unused` (`auth`)\n"));
    assert!(!output.contains("`GET /api/unused` (`auth`) — ⚠"));
}

/// The "still consumed" join must be param-aware: the removed side
/// carries declared param names (`/orders/:id`) while the missing side is
/// normalized (`/orders/:param`) or concrete — literal equality would
/// never flag a parameterized route.
#[test]
fn test_pr_delta_still_consumed_join_is_param_aware() {
    let delta = PrDelta {
        new_endpoints: vec![],
        removed_endpoints: vec![
            // Param name differs from the missing finding's `:param`.
            EndpointRef {
                method: "GET".to_string(),
                path: "/orders/:id".to_string(),
                service: None,
            },
            // Same prefix, different segment count — must NOT be flagged.
            EndpointRef {
                method: "GET".to_string(),
                path: "/orders".to_string(),
                service: None,
            },
            // Param matches a concrete missing segment, but the method
            // differs — must NOT be flagged.
            EndpointRef {
                method: "DELETE".to_string(),
                path: "/users/:id".to_string(),
                service: None,
            },
        ],
    };
    let findings = vec![
        Finding::missing_endpoint(
            "GET",
            "/orders/:param",
            None,
            vec!["web/src/orders.ts:3".to_string()],
        ),
        Finding::missing_endpoint("GET", "/users/42", None, vec![]),
    ];
    let output =
        format_analysis_results(result_with(findings), &topology_baseline(), Some(&delta));

    assert!(output.contains("- Removed `GET /orders/:id` — ⚠ still consumed"));
    assert!(output.contains("- Removed `GET /orders`\n"));
    assert!(output.contains("- Removed `DELETE /users/:id`\n"));
}

#[test]
fn test_still_consumed_join_matches_all_param_syntaxes() {
    // The overlap check must agree with MountGraph::is_param_segment:
    // `{id}` (OpenAPI/Fastify), `<id>` (Flask), `[id]` (Next.js), and a
    // trailing `?` optional marker are placeholders too — not just `:id`.
    assert!(endpoints_overlap("GET", "/o/{id}", "GET", "/o/:param"));
    assert!(endpoints_overlap("GET", "/o/<id>", "GET", "/o/123"));
    assert!(endpoints_overlap("GET", "/o/[id]", "GET", "/o/:param"));
    assert!(endpoints_overlap("GET", "/o/:id?", "GET", "/o/456"));
    // Methods still gate, and concrete mismatched segments still fail.
    assert!(!endpoints_overlap("POST", "/o/{id}", "GET", "/o/:param"));
    assert!(!endpoints_overlap("GET", "/o/{id}/x", "GET", "/o/:param/y"));
}

#[test]
fn test_pr_delta_strip_inline_code_is_prose_safe() {
    // In a prose code span a pipe is literal (must not be backslash-escaped
    // the way a table cell would), and a backtick in the service is dropped.
    let delta = PrDelta {
        new_endpoints: vec![EndpointRef {
            method: "GET".to_string(),
            path: "/a|b".to_string(),
            service: Some("sv`c".to_string()),
        }],
        removed_endpoints: vec![],
    };
    let output =
        format_analysis_results(result_with(vec![]), &topology_baseline(), Some(&delta));

    assert!(output.contains("- New endpoint `GET /a|b` (`svc`)"));
    assert!(
        !output.contains("\\|"),
        "prose code span must not escape pipes"
    );
}

#[test]
fn test_pr_delta_strip_omits_empty_service_suffix() {
    // A service name that sanitizes to empty (e.g. only backticks) must not
    // render an empty " (``)" suffix.
    let delta = PrDelta {
        new_endpoints: vec![EndpointRef {
            method: "GET".to_string(),
            path: "/x".to_string(),
            service: Some("``".to_string()),
        }],
        removed_endpoints: vec![],
    };
    let output =
        format_analysis_results(result_with(vec![]), &topology_baseline(), Some(&delta));

    assert!(output.contains("- New endpoint `GET /x`\n"));
    assert!(!output.contains("(`"), "empty service must omit the suffix");
}

/// URLs are built cloud-side from the verified identity, so the report never
/// emits `{{CARRICK_*}}` markers.
#[test]
fn test_no_placeholder_protocol_in_output() {
    for result in [
        result_with(vec![]),
        result_with(vec![type_mismatch_finding()]),
    ] {
        let output = format_analysis_results(result, &topology_baseline(), None);
        assert!(!output.contains("{{CARRICK_BADGE"));
        assert!(!output.contains("{{CARRICK_LINK"));
        assert!(!output.contains("Carrick dashboard"));
    }
}

#[test]
fn report_is_the_same_with_and_without_the_wrapper() {
    let plain = format_analysis_results(
        result_with(vec![type_mismatch_finding()]),
        &topology_baseline(),
        None,
    );
    let wrapped = FormattedOutput::new(
        result_with(vec![type_mismatch_finding()]),
        topology_baseline(),
        None,
    );
    assert_eq!(plain, wrapped.content);
}

#[test]
fn report_stands_between_its_markers() {
    let output = format_analysis_results(result_with(vec![]), &topology_baseline(), None);
    let start = output.find("<!-- CARRICK_OUTPUT_START -->").unwrap();
    let count = output.find("<!-- CARRICK_ISSUE_COUNT:0 -->").unwrap();
    let end = output.find("<!-- CARRICK_OUTPUT_END -->").unwrap();
    assert!(start < count && count < end);
}

#[test]
fn overlap_is_symmetric() {
    assert!(endpoints_overlap("get", "/a/:x", "GET", "/a/1"));
    assert!(endpoints_overlap("GET", "/a/1", "get", "/a/:x"));
}

#[test]
fn lists_are_joined_as_people_read_them() {
    let texts = |n: usize| -> Vec<String> {
        ["a", "b", "c"][..n].iter().map(|s| s.to_string()).collect()
    };
    assert_eq!(join_human(&texts(0)), "");
    assert_eq!(join_human(&texts(1)), "a");
    assert_eq!(join_human(&texts(2)), "a and b");
    assert_eq!(join_human(&texts(3)), "a, b and c");
}

#[test]
fn inline_code_has_no_backticks_and_no_line_breaks() {
    assert_eq!(code_span(" a`b\nc|d "), "ab c|d");
}

#[test]
fn topology_decides_header_and_scope() {
    assert_eq!(topology_baseline().header_suffix(), "");
    assert_eq!(topology_baseline().scope_phrase(), "3 repos");
    assert_eq!(topology_first_repo().header_suffix(), " · api-server");
    assert!(topology_baseline().has_baseline());
    assert!(!topology_first_repo().has_baseline());
}

#[test]
fn only_calls_by_environment_variable_are_grouped() {
    let missing = Finding::missing_endpoint("GET", "/m", None, vec!["m.ts:1".to_string()]);
    let orphaned = Finding::orphaned_endpoint("GET", "/o", Some("svc".to_string()));
    let call = |var: &str, sites: &[&str]| {
        Finding::env_var_call("GET", "/x", var, sites.iter().map(|s| s.to_string()).collect())
    };
    let (b, a, again) = (call("B", &["z:1"]), call("A", &["y:2", "y:1"]), call("A", &["y:1", "x:3"]));
    let groups = group_env_var_suggestions(&vec![&missing, &b, &a, &orphaned, &again]);
    assert_eq!(groups.len(), 2);
    assert_eq!(groups[0].env_var, "A");
    assert_eq!(groups[0].locations, vec!["x:3", "y:1", "y:2"]);
    assert_eq!(groups[1].env_var, "B");
    assert_eq!(groups[1].locations, vec!["z:1"]);
    assert!(group_env_var_suggestions(&vec![&missing, &orphaned]).is_empty());
}

#[test]
fn findings_of_another_kind_have_no_row() {
    let missing = Finding::missing_endpoint("GET", "/m", None, vec![]);
    let orphaned = Finding::orphaned_endpoint("GET", "/o", Some("svc".to_string()));
    let section = format_connectivity_section(&vec![&missing, &orphaned], &vec![&missing], true);
    assert!(section.contains("Connectivity (3)"));
    assert!(section.contains("**Missing (2)**"));
    assert_eq!(section.matches("| `GET`").count(), 1);
    assert!(section.contains("| Method | Path |\n"));

    let removed = EndpointRef { method: "GET".to_string(), path: "/o".to_string(), service: None };
    let delta = PrDelta { new_endpoints: vec![], removed_endpoints: vec![removed] };
    assert!(!format_pr_delta(Some(&delta), &vec![&orphaned]).contains("still consumed"));
    let still = Finding::missing_endpoint("get", "/o", None, vec![]);
    assert!(format_pr_delta(Some(&delta), &vec![&orphaned, &still]).contains("still consumed"));
}
