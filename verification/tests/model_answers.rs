//! What is asked of language models, and what is read out of their answers.

use carrick::env_alias::{ImportedSymbol, SymbolKind};
use carrick::extractor::Json;
use carrick::framework_detector::{json_has_bounds, FrameworkDetector};
use carrick::gemini_service::{
    answer_text, clean_response, convert_gemini_responses_to_calls, create_extraction_prompt,
    extract_from_code_block, extract_json_array, extraction_attempts, is_rate_limited,
    parse_gemini_response, plan_extraction, AsyncCallContext, ExtractionPlan, GeminiCallResponse,
    ProxyOutcome, TypeInfo, SYSTEM_MESSAGE,
};
use carrick::packages::{Dependency, PackageJson, Packages};

fn detector() -> FrameworkDetector<()> {
    FrameworkDetector::new(())
}

fn symbol(local: &str, source: &str, kind: SymbolKind) -> ImportedSymbol {
    ImportedSymbol {
        local_name: local.to_string(),
        imported_name: local.to_string(),
        source: source.to_string(),
        kind,
    }
}

fn function(file: &str, source: &str) -> AsyncCallContext {
    AsyncCallContext {
        kind: "function".to_string(),
        function_source: source.to_string(),
        file: file.to_string(),
        line: 1,
        function_name: "f".to_string(),
    }
}

fn found(route: &str, method: &str) -> GeminiCallResponse {
    GeminiCallResponse {
        route: route.to_string(),
        method: method.to_string(),
        request_body: None,
        request_type_info: None,
        response_type_info: None,
    }
}

fn manifest(dependencies: &[(&str, &str)], dev: &[(&str, &str)]) -> PackageJson {
    let list = |pairs: &[(&str, &str)]| {
        pairs
            .iter()
            .map(|(name, version)| Dependency {
                name: name.to_string(),
                version: version.to_string(),
            })
            .collect()
    };
    PackageJson {
        name: None,
        version: None,
        dependencies: list(dependencies),
        dev_dependencies: list(dev),
        peer_dependencies: vec![],
        resolutions: vec![],
    }
}

#[test]
fn a_later_manifest_replaces_versions() {
    let mut packages = Packages::empty();
    packages.package_jsons = vec![
        manifest(&[("express", "^4"), ("axios", "^1")], &[("jest", "^29")]),
        manifest(&[("express", "^5")], &[]),
    ];
    let summary = detector().extract_package_summary(&packages);
    assert_eq!(summary.dependencies.get("express").map(String::as_str), Some("^5"));
    assert_eq!(summary.dependencies.get("axios").map(String::as_str), Some("^1"));
    assert_eq!(summary.dependencies.entries.len(), 2);
    assert_eq!(summary.dev_dependencies.get("jest").map(String::as_str), Some("^29"));
    assert!(summary.dependencies.get("jest").is_none());
}

#[test]
fn each_source_is_imported_once() {
    let symbols = vec![
        symbol("Router", "express", SymbolKind::Named),
        symbol("get", "axios", SymbolKind::Named),
        symbol("post", "axios", SymbolKind::Named),
        symbol("express", "express", SymbolKind::Default),
        symbol("path", "node:path", SymbolKind::Namespace),
    ];
    assert_eq!(
        detector().extract_import_statements(&symbols),
        vec![
            "import express from 'express';".to_string(),
            "import { get, post } from 'axios';".to_string(),
            "import * as path from 'node:path';".to_string(),
        ]
    );
    let input = detector().detection_input(&Packages::empty(), &symbols);
    assert_eq!(input.imports.len(), 3);
    assert!(input.package_json.dependencies.is_empty());
}

#[test]
fn json_is_found_in_a_response() {
    let extract = |s: &str| {
        assert!(json_has_bounds(s));
        detector().extract_json_from_response(s)
    };
    assert_eq!(extract("  {\"a\":1}\n"), Ok("{\"a\":1}".to_string()));
    assert_eq!(
        extract("Sure:\n```json\n{\"a\":{\"b\":2}}\n``` and {more}."),
        Ok("{\"a\":{\"b\":2}}".to_string())
    );
    // Not balanced: from the first opening to the last closing brace.
    assert_eq!(extract("x {{ y } z"), Ok("{{ y }".to_string()));
    assert_eq!(
        extract("no braces"),
        Err("No JSON object found in LLM response".to_string())
    );
    assert_eq!(
        extract("} closed only"),
        Err("No JSON object found in LLM response".to_string())
    );
    assert_eq!(
        extract("{ open only"),
        Err("Could not find valid JSON in LLM response".to_string())
    );
    assert!(!json_has_bounds("} {"));
}

#[test]
fn the_model_is_asked_only_where_there_is_something_to_ask() {
    let one = vec![function("a.ts", "async () => {}")];
    assert_eq!(plan_extraction(true, false, &one), ExtractionPlan::Skip);
    assert_eq!(plan_extraction(false, true, &one), ExtractionPlan::Disabled);
    assert_eq!(plan_extraction(false, false, &vec![]), ExtractionPlan::Skip);
    assert_eq!(plan_extraction(false, false, &one), ExtractionPlan::Ask { large: false });
    let at_limit = vec![function("a.ts", &"x".repeat(200_000))];
    assert_eq!(plan_extraction(false, false, &at_limit), ExtractionPlan::Ask { large: false });
    let above = vec![function("a.ts", &"x".repeat(200_000)), function("b.ts", "y")];
    assert_eq!(plan_extraction(false, false, &above), ExtractionPlan::Ask { large: true });
    // The size counts bytes.
    let accented = vec![function("a.ts", &"é".repeat(100_001))];
    assert_eq!(plan_extraction(false, false, &accented), ExtractionPlan::Ask { large: true });
}

#[test]
fn the_question_holds_the_functions() {
    let prompt = create_extraction_prompt("[\"HERE\"]");
    assert!(prompt.contains("FUNCTIONS TO ANALYZE:\n[\"HERE\"]\n\nEXTRACTION RULES:"));
    assert!(prompt.ends_with("OUTPUT JSON ARRAY ONLY:"));
    assert!(SYSTEM_MESSAGE.ends_with("ONLY JSON ARRAY."));
}

#[test]
fn an_answer_is_read_in_four_ways() {
    let answer = " Here:\n```json\n[1]\n```\n// note\n";
    assert_eq!(
        extraction_attempts(answer),
        vec![
            "Here:\n```json\n[1]\n```\n// note".to_string(),
            "[1]".to_string(),
            "[1]".to_string(),
            "Here:```json[1]```".to_string(),
        ]
    );
    assert_eq!(extract_from_code_block("a ``` b ``` c"), "b");
    assert_eq!(extract_from_code_block("```json open"), "```json open");
    assert_eq!(extract_from_code_block("plain"), "plain");
    assert_eq!(extract_json_array("x [1, [2]] y"), "[1, [2]]");
    assert_eq!(extract_json_array("] ["), "[]");
    assert_eq!(extract_json_array("none"), "[]");
    assert_eq!(clean_response("  a\n\n// b\r\n c "), "ac");
}

#[test]
fn found_calls_take_the_file_of_their_function() {
    let mut first = found("/users", "get");
    first.request_body = Some(Json::Boolean(true));
    first.response_type_info = Some(TypeInfo {
        file_path: "types.ts".to_string(),
        start_position: 12,
        composite_type_string: "User[]".to_string(),
        alias: "GetUsersResponse".to_string(),
    });
    let calls = convert_gemini_responses_to_calls(
        vec![first, found("/orders", "Post")],
        &vec![function("a.ts", "")],
    );
    assert_eq!(calls.len(), 2);
    assert_eq!(calls[0].method, "GET");
    assert_eq!(calls[0].call_file, "a.ts");
    assert!(matches!(calls[0].request, Some(Json::Boolean(true))));
    assert!(matches!(calls[0].response, Json::Null));
    let reference = calls[0].response_type.as_ref().expect("a response type");
    assert_eq!(reference.start_position, 12);
    assert_eq!(reference.alias, "GetUsersResponse");
    assert!(calls[0].request_type.is_none());
    // More calls than functions: the file is not known.
    assert_eq!(calls[1].method, "POST");
    assert_eq!(calls[1].call_file, "");
}

#[test]
fn the_first_reading_that_can_be_read_counts() {
    let contexts = vec![function("a.ts", "")];
    let readings = vec![None, Some(vec![found("/a", "GET")]), Some(vec![])];
    let calls = parse_gemini_response(readings, &contexts);
    assert_eq!(calls.len(), 1);
    assert_eq!(calls[0].route, "/a");
    assert!(parse_gemini_response(vec![None, None, None, None], &contexts).is_empty());
}

#[test]
fn only_a_success_has_an_answer() {
    let answered = |success: bool| ProxyOutcome::Answered { success, text: "[]".to_string() };
    assert_eq!(answer_text(answered(true)).as_deref(), Some("[]"));
    assert!(answer_text(answered(false)).is_none());
    assert!(answer_text(ProxyOutcome::Unreadable).is_none());
    assert!(answer_text(ProxyOutcome::Unreachable).is_none());
    assert!(is_rate_limited(&ProxyOutcome::Refused { status: 429 }));
    assert!(!is_rate_limited(&ProxyOutcome::Refused { status: 500 }));
    assert!(!is_rate_limited(&ProxyOutcome::Unreachable));
}
