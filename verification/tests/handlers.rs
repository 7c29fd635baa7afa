//! What handlers answer and read.

use carrick::ast::{
    ArrowBody, BinaryOp, Declarator, Expr, Function, MemberProp, ObjectProp, Pattern, PatternProp,
    Stmt, UnaryOp,
};
use carrick::extractor::{CoreExtractor, HandlerExtractor, Json};

fn ident(name: &str) -> Expr {
    Expr::Ident(name.to_string())
}

fn text(s: &str) -> Expr {
    Expr::Str(s.to_string())
}

fn member(object: Expr, prop: &str) -> Expr {
    Expr::Member { object: Box::new(object), prop: MemberProp::Ident(prop.to_string()) }
}

fn call(object: Expr, method: &str, args: Vec<Expr>) -> Expr {
    Expr::Call { callee: Some(Box::new(member(object, method))), args }
}

fn object(props: Vec<(&str, Expr)>) -> Expr {
    Expr::Object(
        props
            .into_iter()
            .map(|(name, value)| ObjectProp::KeyValue { name: name.to_string(), value })
            .collect(),
    )
}

fn sent(s: &str) -> Expr {
    call(ident("res"), "json", vec![text(s)])
}

fn body_of(field: &str) -> Expr {
    member(member(ident("req"), "body"), field)
}

fn written(j: &Json) -> String {
    match j {
        Json::String(s) => format!("{:?}", s),
        Json::Number(bits) => format!("{}", f64::from_bits(*bits)),
        Json::Boolean(b) => format!("{}", b),
        Json::Null => "null".to_string(),
        Json::Array(items) => {
            let parts: Vec<String> = items.iter().map(written).collect();
            format!("[{}]", parts.join(","))
        }
        Json::Object(fields) => {
            let mut parts: Vec<String> = fields
                .iter()
                .map(|(name, value)| format!("{}:{}", name, written(value)))
                .collect();
            parts.sort();
            format!("{{{}}}", parts.join(","))
        }
    }
}

fn shown(j: Option<Json>) -> String {
    match j {
        Some(j) => written(&j),
        None => "-".to_string(),
    }
}

#[test]
fn literals_are_written_out_and_the_rest_is_null() {
    let e = object(vec![
        ("a", Expr::Num(1.5f64.to_bits())),
        ("b", Expr::Array(vec![Some(Expr::Bool(true)), None, Some(ident("x"))])),
        ("c", object(vec![("d", Expr::Null)])),
        ("a", text("last")),
    ]);
    assert_eq!(
        written(&HandlerExtractor.expr_to_json(&e)),
        r#"{a:"last",b:[true,null],c:{d:null}}"#
    );
}

#[test]
fn shorthands_and_spreads_are_left_out() {
    let e = Expr::Object(vec![ObjectProp::Shorthand("x".to_string()), ObjectProp::Other]);
    assert_eq!(written(&HandlerExtractor.expr_to_json(&e)), "{}");
}

#[test]
fn only_a_response_that_sends_answers() {
    let x = HandlerExtractor;
    for name in ["res", "response", "reply"] {
        for method in ["json", "send", "jsonp"] {
            let e = call(ident(name), method, vec![text("v")]);
            assert_eq!(shown(x.extract_json_fields_from_call(&e)), "\"v\"");
        }
    }
    assert_eq!(shown(x.extract_json_fields_from_call(&call(ident("ctx"), "json", vec![text("v")]))), "-");
    assert_eq!(shown(x.extract_json_fields_from_call(&call(ident("res"), "render", vec![text("v")]))), "-");
    assert_eq!(shown(x.extract_json_fields_from_call(&call(ident("res"), "json", vec![]))), "-");
    assert_eq!(shown(x.extract_json_fields_from_call(&ident("res"))), "-");
    assert_eq!(shown(x.extract_res_json_fields(&sent("v"))), "\"v\"");
    assert_eq!(shown(x.extract_json_fields_from_return(&sent("v"))), "\"v\"");
    let imported = Expr::Call { callee: None, args: vec![text("v")] };
    assert_eq!(shown(x.extract_json_fields_from_call(&imported)), "-");
}

#[test]
fn the_first_statement_that_answers_counts() {
    let x = HandlerExtractor;
    let body = ArrowBody::Block(vec![
        Stmt::Expr(call(ident("log"), "info", vec![text("no")])),
        Stmt::Return(Some(sent("returned"))),
        Stmt::Expr(sent("later")),
    ]);
    assert_eq!(written(&x.extract_fields_from_arrow(&body)), "\"returned\"");
    assert_eq!(written(&x.extract_fields_from_arrow(&ArrowBody::Expr(sent("short")))), "\"short\"");
    assert_eq!(written(&x.extract_fields_from_arrow(&ArrowBody::Expr(ident("x")))), "null");
}

#[test]
fn a_function_looks_one_block_deep() {
    let x = HandlerExtractor;
    let nested = Function {
        body: Some(vec![
            Stmt::Block(vec![Stmt::Return(Some(sent("no"))), Stmt::Expr(sent("inner"))]),
            Stmt::Expr(sent("outer")),
        ]),
    };
    assert_eq!(written(&x.extract_fields_from_function_decl(&nested)), "\"inner\"");
    assert_eq!(written(&x.extract_fields_from_function_expr(&nested)), "\"inner\"");
    assert_eq!(written(&x.extract_fields_from_function_decl(&Function { body: None })), "null");
    // An arrow function does not look into blocks.
    let arrow = ArrowBody::Block(vec![Stmt::Block(vec![Stmt::Expr(sent("inner"))])]);
    assert_eq!(written(&x.extract_fields_from_arrow(&arrow)), "null");
}

#[test]
fn destructured_bodies_name_their_fields() {
    let x = HandlerExtractor;
    let declarator = |init: Expr| Declarator {
        pattern: Pattern::Object(vec![
            PatternProp::Assign("name".to_string()),
            PatternProp::KeyValue("age".to_string()),
            PatternProp::Other,
        ]),
        init: Some(init),
    };
    let ds = vec![declarator(ident("x")), declarator(member(ident("req"), "body"))];
    assert_eq!(shown(x.extract_req_body_from_var_decl(&ds)), "{age:null,name:null}");
    let rest_only = vec![Declarator {
        pattern: Pattern::Object(vec![PatternProp::Other]),
        init: Some(member(ident("req"), "body")),
    }];
    assert_eq!(shown(x.extract_req_body_from_var_decl(&rest_only)), "-");
    assert_eq!(
        shown(x.extract_req_body_fields(&vec![Stmt::Other, Stmt::Var(ds)])),
        "{age:null,name:null}"
    );
}

#[test]
fn fields_of_the_body_are_read_in_expressions_and_conditions() {
    let x = HandlerExtractor;
    assert_eq!(shown(x.extract_req_body_from_expr(&body_of("id"))), "{id:null}");
    assert_eq!(shown(x.extract_req_body_from_expr(&member(ident("req"), "body"))), "-");
    let negated = |op: UnaryOp| Expr::Unary { op, arg: Box::new(body_of("id")) };
    assert_eq!(shown(x.extract_req_body_from_condition(&negated(UnaryOp::Not))), "{id:null}");
    assert_eq!(shown(x.extract_req_body_from_condition(&negated(UnaryOp::Other))), "-");
    let compared = Expr::Binary {
        op: BinaryOp::Other,
        left: Box::new(text("a")),
        right: Box::new(body_of("kind")),
    };
    assert_eq!(shown(x.extract_req_body_from_condition(&compared)), "{kind:null}");
    assert_eq!(
        shown(x.extract_req_body_fields(&vec![
            Stmt::If { test: negated(UnaryOp::Not) },
            Stmt::Expr(body_of("later")),
        ])),
        "{id:null}"
    );
}
