//! What holds of what is read out of a handler's source.

use vstd::prelude::*;

use crate::ast::{
    ArrowBody, BinaryOp, Declarator, Expr, Function, MemberProp, ObjectProp, Pattern, PatternProp,
    Stmt, UnaryOp,
};
use crate::extractor;
use crate::extractor::{Json, JsonModel};

verus! {

// ---------------------------------------------------------------------------
// Values
// ---------------------------------------------------------------------------

/// A literal is its own value.
pub proof fn law_literals(s: String, n: u64, b: bool)
    ensures
        extractor::expr_json(Expr::Str(s)) == JsonModel::String(s@),
        extractor::expr_json(Expr::Num(n)) == JsonModel::Number(n),
        extractor::expr_json(Expr::Bool(b)) == JsonModel::Boolean(b),
        extractor::expr_json(Expr::Null) == JsonModel::Null,
{
}

/// What is no literal, no array and no object has no value that is known.
pub proof fn law_computed_is_null(e: Expr)
    requires
        !(e is Str) && !(e is Num) && !(e is Bool) && !(e is Array) && !(e is Object),
    ensures
        extractor::expr_json(e) == JsonModel::Null,
{
}

/// The value of an array without holes has the value of each element in its
/// place; a hole leaves no value.
pub proof fn law_array_values(elems: Vec<Option<Expr>>)
    ensures
        extractor::expr_json(Expr::Array(elems)) == JsonModel::Array(
            extractor::elems_json(elems@),
        ),
        (forall|i: int| 0 <= i < elems@.len() ==> (#[trigger] elems@[i]) is Some)
            ==> extractor::elems_json(elems@).len() == elems@.len() && forall|i: int|
            0 <= i < elems@.len() ==> extractor::elems_json(elems@)[i] == extractor::expr_json(
                (#[trigger] elems@[i])->0,
            ),
        forall|e: Option<Expr>|
            extractor::elems_json(#[trigger] elems@.push(e)) == match e {
                Some(x) => extractor::elems_json(elems@).push(extractor::expr_json(x)),
                None => extractor::elems_json(elems@),
            },
{
    lemma_all_elems(elems@);
    assert forall|e: Option<Expr>|
        extractor::elems_json(#[trigger] elems@.push(e)) == match e {
            Some(x) => extractor::elems_json(elems@).push(extractor::expr_json(x)),
            None => extractor::elems_json(elems@),
        } by {
        assert(elems@.push(e).drop_last() =~= elems@);
    }
}

proof fn lemma_all_elems(elems: Seq<Option<Expr>>)
    ensures
        (forall|i: int| 0 <= i < elems.len() ==> (#[trigger] elems[i]) is Some)
            ==> extractor::elems_json(elems).len() == elems.len() && forall|i: int|
            0 <= i < elems.len() ==> extractor::elems_json(elems)[i] == extractor::expr_json(
                (#[trigger] elems[i])->0,
            ),
    decreases elems.len(),
{
    if elems.len() > 0 && forall|i: int| 0 <= i < elems.len() ==> (#[trigger] elems[i]) is Some {
        let front = elems.drop_last();
        assert forall|i: int| 0 <= i < front.len() implies (#[trigger] front[i]) is Some by {
            assert(elems[i] == front[i]);
        }
        lemma_all_elems(front);
        assert(elems[elems.len() - 1] is Some);
        assert forall|i: int| 0 <= i < elems.len() implies extractor::elems_json(elems)[i]
            == extractor::expr_json((#[trigger] elems[i])->0) by {
            if i < front.len() {
                assert(front[i] == elems[i]);
            }
        }
    }
}

/// Whether a property is the last that writes the name down with a value.
pub open spec fn is_last_property(
    props: Seq<ObjectProp>,
    name: Seq<char>,
    i: int,
) -> bool {
    &&& 0 <= i < props.len()
    &&& props[i] matches ObjectProp::KeyValue { name: n, .. } && n@ == name
    &&& forall|j: int|
        i < j < props.len() ==> !((#[trigger] props[j]) matches ObjectProp::KeyValue { name: n, .. }
            && n@ == name)
}

/// The value of an object has each name that is written down with a value, with
/// the value that stands last, and no other name.
pub proof fn law_object_values(props: Seq<ObjectProp>, name: Seq<char>)
    ensures
        forall|i: int| #[trigger]
            is_last_property(props, name, i) ==> extractor::props_json(props).contains_key(name) && (
            props[i] matches ObjectProp::KeyValue { value, .. } && extractor::props_json(props)[name]
                == extractor::expr_json(value)),
        (forall|j: int|
            0 <= j < props.len() ==> !((#[trigger] props[j]) matches ObjectProp::KeyValue {
                name: n,
                ..
            } && n@ == name)) ==> !extractor::props_json(props).contains_key(name),
    decreases props.len(),
{
    if props.len() > 0 {
        let front = props.drop_last();
        let n = props.len() - 1;
        law_object_values(front, name);
        assert forall|i: int| #[trigger] is_last_property(props, name, i) implies {
            &&& extractor::props_json(props).contains_key(name)
            &&& props[i] matches ObjectProp::KeyValue { value, .. } && extractor::props_json(
                props,
            )[name] == extractor::expr_json(value)
        } by {
            if i < n {
                assert(!(props[n] matches ObjectProp::KeyValue { name: m, .. } && m@ == name));
                assert forall|j: int| i < j < front.len() implies !((
                #[trigger] front[j]) matches ObjectProp::KeyValue { name: m, .. } && m@ == name) by {
                    assert(props[j] == front[j]);
                }
                assert(is_last_property(front, name, i));
            }
        }
        if forall|j: int|
            0 <= j < props.len() ==> !((#[trigger] props[j]) matches ObjectProp::KeyValue {
                name: m,
                ..
            } && m@ == name) {
            assert(!(props[n] matches ObjectProp::KeyValue { name: m, .. } && m@ == name));
            assert forall|j: int| 0 <= j < front.len() implies !((
            #[trigger] front[j]) matches ObjectProp::KeyValue { name: m, .. } && m@ == name) by {
                assert(props[j] == front[j]);
            }
        }
    }
}

// ---------------------------------------------------------------------------
// Responses
// ---------------------------------------------------------------------------

/// Whether a name is one by which a handler calls its response.
pub open spec fn names_response(name: Seq<char>) -> bool {
    name == "res"@ || name == "response"@ || name == "reply"@
}

/// Whether a method sends its argument.
pub open spec fn names_sending(name: Seq<char>) -> bool {
    name == "json"@ || name == "send"@ || name == "jsonp"@
}

/// The call of a method of a name.
pub open spec fn method_call(object: String, method: String, args: Vec<Expr>) -> Expr {
    Expr::Call {
        callee: Some(
            Box::new(
                Expr::Member {
                    object: Box::new(Expr::Ident(object)),
                    prop: MemberProp::Ident(method),
                },
            ),
        ),
        args,
    }
}

/// A call answers exactly where a sending method of the response is called with
/// an argument; the answer is the first argument, whatever follows it.
pub proof fn law_answering_call(object: String, method: String, args: Vec<Expr>)
    ensures
        extractor::sent_json(method_call(object, method, args)) == if names_response(object@)
            && names_sending(method@) && args@.len() > 0 {
            Some(extractor::expr_json(args@[0]))
        } else {
            None
        },
{
}

/// What is no call answers nothing.
pub proof fn law_only_calls_answer(e: Expr)
    requires
        !(e is Call),
    ensures
        extractor::sent_json(e) is None,
{
}

/// Whether a statement calls or returns the expression.
pub open spec fn is_statement_of(s: Stmt, e: Expr) -> bool {
    s == Stmt::Expr(e) || s == Stmt::Return(Some(e))
}

/// Whether a statement of an arrow function answers.
pub open spec fn answers(s: Stmt) -> bool {
    exists|e: Expr| #[trigger] is_statement_of(s, e) && extractor::sent_json(e) is Some
}

proof fn lemma_first_stmt(before: Seq<Stmt>, s: Stmt, after: Seq<Stmt>, e: Expr)
    requires
        forall|i: int| 0 <= i < before.len() ==> !answers(#[trigger] before[i]),
        is_statement_of(s, e),
        extractor::sent_json(e) is Some,
    ensures
        extractor::first_stmt_json(before.push(s) + after) == extractor::sent_json(e),
    decreases before.len(),
{
    let all = before.push(s) + after;
    if before.len() == 0 {
        assert(all[0] == s);
    } else {
        assert(all[0] == before[0]);
        assert(!answers(before[0]));
        assert(extractor::stmt_json(before[0]) is None) by {
            match before[0] {
                Stmt::Expr(x) => {
                    assert(is_statement_of(before[0], x));
                },
                Stmt::Return(Some(x)) => {
                    assert(is_statement_of(before[0], x));
                },
                _ => {},
            }
        }
        let rest = before.skip(1);
        assert forall|i: int| 0 <= i < rest.len() implies !answers(#[trigger] rest[i]) by {
            assert(before[i + 1] == rest[i]);
        }
        lemma_first_stmt(rest, s, after, e);
        assert(all.skip(1) =~= rest.push(s) + after);
    }
}

/// The response of an arrow function is the answer of its first statement that
/// answers; what follows does not matter.
pub proof fn law_arrow_response(
    stmts: Vec<Stmt>,
    before: Seq<Stmt>,
    s: Stmt,
    after: Seq<Stmt>,
    e: Expr,
)
    requires
        stmts@ == before.push(s) + after,
        forall|i: int| 0 <= i < before.len() ==> !answers(#[trigger] before[i]),
        is_statement_of(s, e),
        extractor::sent_json(e) is Some,
    ensures
        extractor::arrow_json(ArrowBody::Block(stmts)) == extractor::sent_json(e)->0,
{
    lemma_first_stmt(before, s, after, e);
}

/// An arrow function without braces answers with its expression, and one that
/// never answers has a null response.
pub proof fn law_arrow_other_responses(e: Expr, stmts: Vec<Stmt>)
    ensures
        extractor::sent_json(e) is Some ==> extractor::arrow_json(ArrowBody::Expr(e))
            == extractor::sent_json(e)->0,
        extractor::sent_json(e) is None ==> extractor::arrow_json(ArrowBody::Expr(e))
            == JsonModel::Null,
        (forall|i: int| 0 <= i < stmts@.len() ==> !answers(#[trigger] stmts@[i]))
            ==> extractor::arrow_json(ArrowBody::Block(stmts)) == JsonModel::Null,
{
    if forall|i: int| 0 <= i < stmts@.len() ==> !answers(#[trigger] stmts@[i]) {
        lemma_no_stmt(stmts@);
    }
}

proof fn lemma_no_stmt(stmts: Seq<Stmt>)
    requires
        forall|i: int| 0 <= i < stmts.len() ==> !answers(#[trigger] stmts[i]),
    ensures
        extractor::first_stmt_json(stmts) is None,
    decreases stmts.len(),
{
    if stmts.len() > 0 {
        assert(!answers(stmts[0]));
        match stmts[0] {
            Stmt::Expr(x) => {
                assert(is_statement_of(stmts[0], x));
            },
            Stmt::Return(Some(x)) => {
                assert(is_statement_of(stmts[0], x));
            },
            _ => {},
        }
        let rest = stmts.skip(1);
        assert forall|i: int| 0 <= i < rest.len() implies !answers(#[trigger] rest[i]) by {
            assert(stmts[i + 1] == rest[i]);
        }
        lemma_no_stmt(rest);
    }
}

/// Whether a statement calls, as a statement, what answers.
pub open spec fn calls_answer(s: Stmt) -> bool {
    s matches Stmt::Expr(e) && extractor::sent_json(e) is Some
}

/// Whether a statement of a function answers: by itself, or by a call in a block
/// that it is.
pub open spec fn answers_in_function(s: Stmt) -> bool {
    ||| answers(s)
    ||| s matches Stmt::Block(inner) && exists|i: int|
        0 <= i < inner@.len() && calls_answer(#[trigger] inner@[i])
}

proof fn lemma_first_call(before: Seq<Stmt>, e: Expr, after: Seq<Stmt>)
    requires
        forall|i: int| 0 <= i < before.len() ==> !calls_answer(#[trigger] before[i]),
        extractor::sent_json(e) is Some,
    ensures
        extractor::first_call_json(before.push(Stmt::Expr(e)) + after) == extractor::sent_json(e),
    decreases before.len(),
{
    let all = before.push(Stmt::Expr(e)) + after;
    if before.len() == 0 {
        assert(all[0] == Stmt::Expr(e));
    } else {
        assert(all[0] == before[0]);
        assert(!calls_answer(before[0]));
        let rest = before.skip(1);
        assert forall|i: int| 0 <= i < rest.len() implies !calls_answer(#[trigger] rest[i]) by {
            assert(before[i + 1] == rest[i]);
        }
        lemma_first_call(rest, e, after);
        assert(all.skip(1) =~= rest.push(Stmt::Expr(e)) + after);
    }
}

proof fn lemma_no_call(stmts: Seq<Stmt>)
    requires
        forall|i: int| 0 <= i < stmts.len() ==> !calls_answer(#[trigger] stmts[i]),
    ensures
        extractor::first_call_json(stmts) is None,
    decreases stmts.len(),
{
    if stmts.len() > 0 {
        assert(!calls_answer(stmts[0]));
        let rest = stmts.skip(1);
        assert forall|i: int| 0 <= i < rest.len() implies !calls_answer(#[trigger] rest[i]) by {
            assert(stmts[i + 1] == rest[i]);
        }
        lemma_no_call(rest);
    }
}

proof fn lemma_silent(s: Stmt)
    requires
        !answers_in_function(s),
    ensures
        extractor::function_stmt_json(s) is None,
{
    match s {
        Stmt::Block(inner) => {
            assert forall|i: int| 0 <= i < inner@.len() implies !calls_answer(
                #[trigger] inner@[i],
            ) by {}
            lemma_no_call(inner@);
        },
        Stmt::Expr(x) => {
            assert(is_statement_of(s, x));
        },
        Stmt::Return(Some(x)) => {
            assert(is_statement_of(s, x));
        },
        _ => {},
    }
}

proof fn lemma_first_in_function(before: Seq<Stmt>, s: Stmt, after: Seq<Stmt>)
    requires
        forall|i: int| 0 <= i < before.len() ==> !answers_in_function(#[trigger] before[i]),
        extractor::function_stmt_json(s) is Some,
    ensures
        extractor::first_function_json(before.push(s) + after) == extractor::function_stmt_json(s),
    decreases before.len(),
{
    let all = before.push(s) + after;
    if before.len() == 0 {
        assert(all[0] == s);
    } else {
        assert(all[0] == before[0]);
        assert(!answers_in_function(before[0]));
        lemma_silent(before[0]);
        let rest = before.skip(1);
        assert forall|i: int| 0 <= i < rest.len() implies !answers_in_function(
            #[trigger] rest[i],
        ) by {
            assert(before[i + 1] == rest[i]);
        }
        lemma_first_in_function(rest, s, after);
        assert(all.skip(1) =~= rest.push(s) + after);
    }
}

/// The response of a function is the answer of its first statement that answers;
/// what follows does not matter.
pub proof fn law_function_response(
    f: Function,
    before: Seq<Stmt>,
    s: Stmt,
    after: Seq<Stmt>,
    e: Expr,
)
    requires
        f.body matches Some(stmts) && stmts@ == before.push(s) + after,
        forall|i: int| 0 <= i < before.len() ==> !answers_in_function(#[trigger] before[i]),
        is_statement_of(s, e),
        extractor::sent_json(e) is Some,
    ensures
        extractor::function_json(f) == extractor::sent_json(e)->0,
{
    lemma_first_in_function(before, s, after);
}

/// A block of a function answers with its first call that answers.
pub proof fn law_block_response(
    f: Function,
    before: Seq<Stmt>,
    block: Vec<Stmt>,
    after: Seq<Stmt>,
    silent: Seq<Stmt>,
    e: Expr,
    rest: Seq<Stmt>,
)
    requires
        f.body matches Some(stmts) && stmts@ == before.push(Stmt::Block(block)) + after,
        forall|i: int| 0 <= i < before.len() ==> !answers_in_function(#[trigger] before[i]),
        block@ == silent.push(Stmt::Expr(e)) + rest,
        forall|i: int| 0 <= i < silent.len() ==> !calls_answer(#[trigger] silent[i]),
        extractor::sent_json(e) is Some,
    ensures
        extractor::function_json(f) == extractor::sent_json(e)->0,
{
    lemma_first_call(silent, e, rest);
    lemma_first_in_function(before, Stmt::Block(block), after);
}

/// A function without a body, or in which nothing answers, has a null response.
pub proof fn law_silent_function(f: Function)
    requires
        f.body matches Some(stmts) ==> forall|i: int|
            0 <= i < stmts@.len() ==> !answers_in_function(#[trigger] stmts@[i]),
    ensures
        extractor::function_json(f) == JsonModel::Null,
{
    if let Some(stmts) = f.body {
        lemma_silent_stmts(stmts@);
    }
}

proof fn lemma_silent_stmts(stmts: Seq<Stmt>)
    requires
        forall|i: int| 0 <= i < stmts.len() ==> !answers_in_function(#[trigger] stmts[i]),
    ensures
        extractor::first_function_json(stmts) is None,
    decreases stmts.len(),
{
    if stmts.len() > 0 {
        assert(!answers_in_function(stmts[0]));
        lemma_silent(stmts[0]);
        let rest = stmts.skip(1);
        assert forall|i: int| 0 <= i < rest.len() implies !answers_in_function(
            #[trigger] rest[i],
        ) by {
            assert(stmts[i + 1] == rest[i]);
        }
        lemma_silent_stmts(rest);
    }
}

// ---------------------------------------------------------------------------
// Request bodies
// ---------------------------------------------------------------------------

/// Whether an expression is `req.body`.
pub open spec fn is_request_body(e: Expr) -> bool {
    e matches Expr::Member { object, prop } && (*object matches Expr::Ident(o) && o@ == "req"@) && (
    prop matches MemberProp::Ident(p) && p@ == "body"@)
}

/// Whether a property of a pattern reads the name.
pub open spec fn reads(p: PatternProp, name: Seq<char>) -> bool {
    match p {
        PatternProp::Assign(s) => s@ == name,
        PatternProp::KeyValue(s) => s@ == name,
        PatternProp::Other => false,
    }
}

/// Whether a body has just the names that the pattern reads, with values that
/// are not known.
pub open spec fn is_body_of(body: JsonModel, props: Seq<PatternProp>) -> bool {
    body matches JsonModel::Object(fields) && forall|name: Seq<char>| #[trigger]
        fields.contains_key(name) <==> (exists|i: int|
            0 <= i < props.len() && reads(#[trigger] props[i], name))
}

proof fn lemma_read_fields(props: Seq<PatternProp>, name: Seq<char>)
    ensures
        extractor::read_fields(props).contains_key(name) <==> (exists|i: int|
            0 <= i < props.len() && reads(#[trigger] props[i], name)),
        extractor::read_fields(props).contains_key(name) ==> extractor::read_fields(props)[name]
            == JsonModel::Null,
    decreases props.len(),
{
    if props.len() > 0 {
        let front = props.drop_last();
        let n = props.len() - 1;
        lemma_read_fields(front, name);
        if exists|i: int| 0 <= i < front.len() && reads(#[trigger] front[i], name) {
            let i = choose|i: int| 0 <= i < front.len() && reads(#[trigger] front[i], name);
            assert(reads(props[i], name));
        }
        if reads(props[n], name) {
            assert(extractor::read_name(props.last()) == Some(name));
        }
        if exists|i: int| 0 <= i < props.len() && reads(#[trigger] props[i], name) {
            let i = choose|i: int| 0 <= i < props.len() && reads(#[trigger] props[i], name);
            if i < n {
                assert(reads(front[i], name));
            }
        }
    }
}

/// A declaration that takes the request's body apart reads the names of its
/// pattern; one that takes anything else apart, or reads no name, says nothing of
/// the body.
pub proof fn law_declared_body(d: Declarator, props: Vec<PatternProp>, init: Expr)
    requires
        d.pattern == Pattern::Object(props),
        d.init == Some(init),
    ensures
        is_request_body(init) && (exists|i: int|
            0 <= i < props@.len() && !((#[trigger] props@[i]) is Other))
            ==> extractor::declarator_body(d) is Some && is_body_of(
            extractor::declarator_body(d)->0,
            props@,
        ),
        !is_request_body(init) ==> extractor::declarator_body(d) is None,
        (forall|i: int| 0 <= i < props@.len() ==> (#[trigger] props@[i]) is Other)
            ==> extractor::declarator_body(d) is None,
{
    assert forall|name: Seq<char>| #[trigger]
        extractor::read_fields(props@).contains_key(name) <==> (exists|i: int|
            0 <= i < props@.len() && reads(#[trigger] props@[i], name)) by {
        lemma_read_fields(props@, name);
    }
    if exists|i: int| 0 <= i < props@.len() && !((#[trigger] props@[i]) is Other) {
        let i = choose|i: int| 0 <= i < props@.len() && !((#[trigger] props@[i]) is Other);
        assert(extractor::read_name(props@[i]) is Some);
    }
}

/// Whether a body has the one field.
pub open spec fn is_field(body: Option<JsonModel>, name: Seq<char>) -> bool {
    body matches Some(JsonModel::Object(fields)) && fields.dom() == set![name]
}

/// A condition tests a field of the request's body as it stands, negated, or on
/// either side of an operator, the left before the right.
pub proof fn law_tested_field(body: Expr, name: String, op: BinaryOp, left: Expr, right: Expr)
    requires
        is_request_body(body),
    ensures
        ({
            let field = Expr::Member { object: Box::new(body), prop: MemberProp::Ident(name) };
            let negated = Expr::Unary { op: UnaryOp::Not, arg: Box::new(field) };
            let first = Expr::Binary { op, left: Box::new(field), right: Box::new(right) };
            let second = Expr::Binary { op, left: Box::new(left), right: Box::new(field) };
            &&& is_field(extractor::condition_field(field), name@)
            &&& is_field(extractor::condition_field(negated), name@)
            &&& is_field(extractor::condition_field(first), name@)
            &&& extractor::body_field(left) is None ==> is_field(
                extractor::condition_field(second),
                name@,
            )
        }),
{
    let field = Expr::Member { object: Box::new(body), prop: MemberProp::Ident(name) };
    let fields = Map::<Seq<char>, JsonModel>::empty().insert(name@, JsonModel::Null);
    assert(fields.dom() =~= set![name@]);
    assert(extractor::body_field(field) == Some(JsonModel::Object(fields)));
}

/// A property of anything but the request's body is no field of it.
pub proof fn law_only_the_body_has_fields(object: Expr, prop: MemberProp)
    requires
        !is_request_body(object),
    ensures
        extractor::body_field(Expr::Member { object: Box::new(object), prop }) is None,
{
}

/// What is read of the body is what its first statement reads that reads
/// anything.
pub proof fn law_first_reading_counts(before: Seq<Stmt>, s: Stmt, after: Seq<Stmt>)
    requires
        forall|i: int|
            0 <= i < before.len() ==> extractor::stmt_body(#[trigger] before[i]) is None,
        extractor::stmt_body(s) is Some,
    ensures
        extractor::first_body(before.push(s) + after) == extractor::stmt_body(s),
    decreases before.len(),
{
    let all = before.push(s) + after;
    if before.len() == 0 {
        assert(all[0] == s);
    } else {
        assert(all[0] == before[0]);
        let rest = before.skip(1);
        assert forall|i: int| 0 <= i < rest.len() implies extractor::stmt_body(
            #[trigger] rest[i],
        ) is None by {
            assert(before[i + 1] == rest[i]);
        }
        law_first_reading_counts(rest, s, after);
        assert(all.skip(1) =~= rest.push(s) + after);
    }
}

/// Of the declarations of a statement the first that reads the body counts.
pub proof fn law_first_declaration_counts(
    before: Seq<Declarator>,
    d: Declarator,
    after: Seq<Declarator>,
)
    requires
        forall|i: int|
            0 <= i < before.len() ==> extractor::declarator_body(#[trigger] before[i]) is None,
        extractor::declarator_body(d) is Some,
    ensures
        extractor::first_declared_body(before.push(d) + after) == extractor::declarator_body(d),
    decreases before.len(),
{
    let all = before.push(d) + after;
    if before.len() == 0 {
        assert(all[0] == d);
    } else {
        assert(all[0] == before[0]);
        let rest = before.skip(1);
        assert forall|i: int| 0 <= i < rest.len() implies extractor::declarator_body(
            #[trigger] rest[i],
        ) is None by {
            assert(before[i + 1] == rest[i]);
        }
        law_first_declaration_counts(rest, d, after);
        assert(all.skip(1) =~= rest.push(d) + after);
    }
}

/// A JSON value means what it is: an array the values of its items in their
/// order, an object the values under its names.
pub proof fn law_meaning_of_json(items: Vec<Json>, fields: Vec<(String, Json)>, i: int)
    ensures
        extractor::json_model(Json::Array(items)) matches JsonModel::Array(values) && values.len()
            == items@.len() && (0 <= i < items@.len() ==> values[i] == extractor::json_model(
            items@[i],
        )),
        extractor::json_model(Json::Object(fields)) matches JsonModel::Object(values) && (
        extractor::names_distinct(fields@) && 0 <= i < fields@.len() ==> values.contains_key(
            fields@[i].0@,
        ) && values[fields@[i].0@] == extractor::json_model(fields@[i].1)),
{
    lemma_items(items@, i);
    lemma_fields(fields@, i);
}

proof fn lemma_items(v: Seq<Json>, i: int)
    ensures
        extractor::array_model(v).len() == v.len(),
        0 <= i < v.len() ==> extractor::array_model(v)[i] == extractor::json_model(v[i]),
    decreases v.len(),
{
    if v.len() > 0 {
        lemma_items(v.drop_last(), i);
    }
}

proof fn lemma_fields(v: Seq<(String, Json)>, i: int)
    ensures
        extractor::names_distinct(v) && 0 <= i < v.len() ==> extractor::object_model(
            v,
        ).contains_key(v[i].0@) && extractor::object_model(v)[v[i].0@] == extractor::json_model(
            v[i].1,
        ),
    decreases v.len(),
{
    if v.len() > 0 && extractor::names_distinct(v) {
        let front = v.drop_last();
        assert forall|a: int, b: int| 0 <= a < b < front.len() implies (#[trigger] front[a]).0@ != (
        #[trigger] front[b]).0@ by {
            assert(v[a].0@ != v[b].0@);
        }
        lemma_fields(front, i);
        if 0 <= i < front.len() {
            assert(v[i].0@ != v[v.len() - 1].0@);
        }
    }
}

} // verus!
