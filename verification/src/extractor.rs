//! What a handler answers and what it reads from the request body, as far as
//! its statements show it.

use vstd::prelude::*;

use crate::ast::{
    ArrowBody, Declarator, Expr, Function, MemberProp, ObjectProp, Pattern, PatternProp, Stmt,
    UnaryOp,
};
use crate::{ast, text};

verus! {

// ---------------------------------------------------------------------------
// JSON values
// ---------------------------------------------------------------------------

/// A JSON value. An object has each name once.
#[derive(Debug)]
pub enum Json {
    String(String),
    /// A number, by the bits of its floating-point value.
    Number(u64),
    Boolean(bool),
    Null,
    Array(Vec<Json>),
    Object(Vec<(String, Json)>),
}

/// What a JSON value means.
pub enum JsonModel {
    String(Seq<char>),
    Number(u64),
    Boolean(bool),
    Null,
    Array(Seq<JsonModel>),
    Object(Map<Seq<char>, JsonModel>),
}

/// What a JSON value means.
pub open spec fn json_model(j: Json) -> JsonModel
    decreases j,
{
    match j {
        Json::String(s) => JsonModel::String(s@),
        Json::Number(n) => JsonModel::Number(n),
        Json::Boolean(b) => JsonModel::Boolean(b),
        Json::Null => JsonModel::Null,
        Json::Array(v) => JsonModel::Array(array_model(v@)),
        Json::Object(v) => JsonModel::Object(object_model(v@)),
    }
}

/// What the items of an array mean.
pub open spec fn array_model(v: Seq<Json>) -> Seq<JsonModel>
    decreases v,
{
    if v.len() == 0 {
        Seq::empty()
    } else {
        array_model(v.drop_last()).push(json_model(v.last()))
    }
}

/// What the fields of an object mean.
pub open spec fn object_model(v: Seq<(String, Json)>) -> Map<Seq<char>, JsonModel>
    decreases v,
{
    if v.len() == 0 {
        Map::empty()
    } else {
        object_model(v.drop_last()).insert(v.last().0@, json_model(v.last().1))
    }
}

/// Whether no two fields have the same name.
pub open spec fn names_distinct(v: Seq<(String, Json)>) -> bool {
    forall|i: int, j: int|
        0 <= i < j < v.len() ==> (#[trigger] v[i]).0@ != (#[trigger] v[j]).0@
}

/// Whether each object in a value has each name once.
pub open spec fn well_formed(j: Json) -> bool
    decreases j,
{
    match j {
        Json::Array(v) => items_well_formed(v@),
        Json::Object(v) => names_distinct(v@) && fields_well_formed(v@),
        _ => true,
    }
}

/// Whether all items are well-formed.
pub open spec fn items_well_formed(v: Seq<Json>) -> bool
    decreases v,
{
    v.len() == 0 || items_well_formed(v.drop_last()) && well_formed(v.last())
}

/// Whether all fields are well-formed.
pub open spec fn fields_well_formed(v: Seq<(String, Json)>) -> bool
    decreases v,
{
    v.len() == 0 || fields_well_formed(v.drop_last()) && well_formed(v.last().1)
}

proof fn lemma_update_field(v: Seq<(String, Json)>, i: int, field: (String, Json))
    requires
        names_distinct(v),
        fields_well_formed(v),
        well_formed(field.1),
        0 <= i < v.len(),
        v[i].0@ == field.0@,
    ensures
        object_model(v.update(i, field)) == object_model(v).insert(
            field.0@,
            json_model(field.1),
        ),
        fields_well_formed(v.update(i, field)),
    decreases v.len(),
{
    let w = v.update(i, field);
    let front = v.drop_last();
    if i == v.len() - 1 {
        assert(w.drop_last() =~= front);
        assert(object_model(w) =~= object_model(v).insert(field.0@, json_model(field.1)));
    } else {
        assert(w.drop_last() =~= front.update(i, field));
        assert(w.last() == v.last());
        assert(front[i] == v[i]);
        assert(names_distinct(front)) by {
            assert forall|a: int, b: int| 0 <= a < b < front.len() implies (#[trigger] front[a]).0@
                != (#[trigger] front[b]).0@ by {
                assert(v[a].0@ != v[b].0@);
            }
        }
        lemma_update_field(front, i, field);
        assert(v[i].0@ != v[v.len() - 1].0@);
        assert(object_model(w) =~= object_model(v).insert(field.0@, json_model(field.1)));
    }
}

fn insert_field(fields: &mut Vec<(String, Json)>, name: String, value: Json)
    requires
        names_distinct(old(fields)@),
        fields_well_formed(old(fields)@),
        well_formed(value),
    ensures
        names_distinct(final(fields)@),
        fields_well_formed(final(fields)@),
        object_model(final(fields)@) == object_model(old(fields)@).insert(name@, json_model(value)),
{
    let ghost before = fields@;
    let mut i: usize = 0;
    while i < fields.len()
        invariant
            i <= fields@.len(),
            fields@ == before,
            names_distinct(before),
            fields_well_formed(before),
            well_formed(value),
            before == old(fields)@,
            forall|k: int| 0 <= k < i ==> (#[trigger] before[k]).0@ != name@,
        decreases fields@.len() - i,
    {
        if text::same_text(&fields[i].0, &name) {
            let ghost field = (name, value);
            fields.set(i, (name, value));
            proof {
                lemma_update_field(before, i as int, field);
                assert forall|a: int, b: int| 0 <= a < b < fields@.len() implies (
                #[trigger] fields@[a]).0@ != (#[trigger] fields@[b]).0@ by {
                    assert(before[a].0@ != before[b].0@);
                }
            }
            return ;
        }
        i += 1;
    }
    fields.push((name, value));
    proof {
        assert(fields@.drop_last() =~= before);
        assert forall|a: int, b: int| 0 <= a < b < fields@.len() implies (#[trigger] fields@[a]).0@
            != (#[trigger] fields@[b]).0@ by {
            assert(before[a].0@ == fields@[a].0@);
            if b < before.len() {
                assert(before[b].0@ == fields@[b].0@);
            }
        }
    }
}

// ---------------------------------------------------------------------------
// Expressions
// ---------------------------------------------------------------------------

/// The JSON value that an expression writes down. What is computed is null.
pub open spec fn expr_json(e: Expr) -> JsonModel
    decreases e,
{
    match e {
        Expr::Str(s) => JsonModel::String(s@),
        Expr::Num(n) => JsonModel::Number(n),
        Expr::Bool(b) => JsonModel::Boolean(b),
        Expr::Array(elems) => JsonModel::Array(elems_json(elems@)),
        Expr::Object(props) => JsonModel::Object(props_json(props@)),
        _ => JsonModel::Null,
    }
}

/// The values of the elements of an array, without its holes.
pub open spec fn elems_json(elems: Seq<Option<Expr>>) -> Seq<JsonModel>
    decreases elems,
{
    if elems.len() == 0 {
        Seq::empty()
    } else {
        let before = elems_json(elems.drop_last());
        match elems.last() {
            Some(e) => before.push(expr_json(e)),
            None => before,
        }
    }
}

/// The values of the named properties of an object, a later property over an
/// earlier.
pub open spec fn props_json(props: Seq<ObjectProp>) -> Map<Seq<char>, JsonModel>
    decreases props,
{
    if props.len() == 0 {
        Map::empty()
    } else {
        let before = props_json(props.drop_last());
        match props.last() {
            ObjectProp::KeyValue { name, value } => before.insert(name@, expr_json(value)),
            _ => before,
        }
    }
}

/// Whether a value was built as an expression says.
pub open spec fn builds(r: Json, model: JsonModel) -> bool {
    json_model(r) == model && well_formed(r)
}

/// Whether a value was found, and built as it should be.
pub open spec fn finds(r: Option<Json>, model: Option<JsonModel>) -> bool {
    match r {
        Some(j) => model == Some(json_model(j)) && well_formed(j),
        None => model is None,
    }
}

/// The JSON value that an expression writes down.
fn json_of(e: &Expr) -> (r: Json)
    ensures
        builds(r, expr_json(*e)),
    decreases e,
{
    match e {
        Expr::Str(s) => Json::String(s.clone()),
        Expr::Num(n) => Json::Number(*n),
        Expr::Bool(b) => Json::Boolean(*b),
        Expr::Array(elems) => {
            let mut out: Vec<Json> = Vec::new();
            let mut i: usize = 0;
            while i < elems.len()
                invariant
                    i <= elems@.len(),
                    *e == Expr::Array(*elems),
                    array_model(out@) == elems_json(elems@.take(i as int)),
                    items_well_formed(out@),
                decreases elems@.len() - i,
            {
                assert(elems@.take(i + 1).drop_last() =~= elems@.take(i as int));
                if let Some(elem) = &elems[i] {
                    assert(decreases_to!(*e => e->Array_0));
                    assert(decreases_to!(elems@ => elems@[i as int]));
                    let value = json_of(elem);
                    let ghost before = out@;
                    out.push(value);
                    assert(out@.drop_last() =~= before);
                }
                i += 1;
            }
            assert(elems@.take(i as int) =~= elems@);
            Json::Array(out)
        },
        Expr::Object(props) => {
            let mut out: Vec<(String, Json)> = Vec::new();
            let mut i: usize = 0;
            while i < props.len()
                invariant
                    i <= props@.len(),
                    *e == Expr::Object(*props),
                    object_model(out@) == props_json(props@.take(i as int)),
                    names_distinct(out@),
                    fields_well_formed(out@),
                decreases props@.len() - i,
            {
                assert(props@.take(i + 1).drop_last() =~= props@.take(i as int));
                if let ObjectProp::KeyValue { name, value } = &props[i] {
                    assert(decreases_to!(*e => e->Object_0));
                    assert(decreases_to!(props@ => props@[i as int]));
                    let json = json_of(value);
                    insert_field(&mut out, name.clone(), json);
                }
                i += 1;
            }
            assert(props@.take(i as int) =~= props@);
            Json::Object(out)
        },
        _ => Json::Null,
    }
}

// ---------------------------------------------------------------------------
// Responses
// ---------------------------------------------------------------------------

/// Whether a method sends its argument as the response.
pub open spec fn sends(p: MemberProp) -> bool {
    ast::is_prop(p, "json"@) || ast::is_prop(p, "send"@) || ast::is_prop(p, "jsonp"@)
}

/// Whether an expression is the response object of a handler, by its name.
pub open spec fn is_response(e: Expr) -> bool {
    ast::is_ident(e, "res"@) || ast::is_ident(e, "response"@) || ast::is_ident(e, "reply"@)
}

/// The response that a call sends.
pub open spec fn sent_json(e: Expr) -> Option<JsonModel> {
    match e {
        Expr::Call { callee, args } => match callee {
            Some(callee) => match *callee {
                Expr::Member { object, prop } => if sends(prop) && is_response(*object)
                    && args@.len() > 0 {
                    Some(expr_json(args@[0]))
                } else {
                    None
                },
                _ => None,
            },
            None => None,
        },
        _ => None,
    }
}

fn find_sent_json(e: &Expr) -> (r: Option<Json>)
    ensures
        finds(r, sent_json(*e)),
{
    match e {
        Expr::Call { callee, args } => match callee {
            Some(callee) => match &**callee {
                Expr::Member { object, prop } => {
                    let sending = match prop {
                        MemberProp::Ident(method) => text::same_text(method, "json")
                            || text::same_text(method, "send") || text::same_text(method, "jsonp"),
                        _ => false,
                    };
                    let on_response = match &**object {
                        Expr::Ident(name) => text::same_text(name, "res") || text::same_text(
                            name,
                            "response",
                        ) || text::same_text(name, "reply"),
                        _ => false,
                    };
                    if sending && on_response && args.len() > 0 {
                        Some(json_of(&args[0]))
                    } else {
                        None
                    }
                },
                _ => None,
            },
            None => None,
        },
        _ => None,
    }
}

/// The response that a statement sends: by a call, or by a call that is
/// returned.
pub open spec fn stmt_json(s: Stmt) -> Option<JsonModel> {
    match s {
        Stmt::Expr(e) => sent_json(e),
        Stmt::Return(Some(e)) => sent_json(e),
        _ => None,
    }
}

/// The response of the first statement of an arrow function that sends one.
pub open spec fn first_stmt_json(stmts: Seq<Stmt>) -> Option<JsonModel>
    decreases stmts.len(),
{
    if stmts.len() == 0 {
        None
    } else {
        match stmt_json(stmts[0]) {
            Some(j) => Some(j),
            None => first_stmt_json(stmts.skip(1)),
        }
    }
}

/// The response of the first plain call in a block that sends one.
pub open spec fn first_call_json(stmts: Seq<Stmt>) -> Option<JsonModel>
    decreases stmts.len(),
{
    if stmts.len() == 0 {
        None
    } else {
        let first = match stmts[0] {
            Stmt::Expr(e) => sent_json(e),
            _ => None,
        };
        match first {
            Some(j) => Some(j),
            None => first_call_json(stmts.skip(1)),
        }
    }
}

/// The response that a statement of a function sends; a block is looked into
/// once, for plain calls.
pub open spec fn function_stmt_json(s: Stmt) -> Option<JsonModel> {
    match s {
        Stmt::Block(inner) => first_call_json(inner@),
        _ => stmt_json(s),
    }
}

/// The response of the first statement of a function that sends one.
pub open spec fn first_function_json(stmts: Seq<Stmt>) -> Option<JsonModel>
    decreases stmts.len(),
{
    if stmts.len() == 0 {
        None
    } else {
        match function_stmt_json(stmts[0]) {
            Some(j) => Some(j),
            None => first_function_json(stmts.skip(1)),
        }
    }
}

/// A value that was found, or null.
pub open spec fn or_null(j: Option<JsonModel>) -> JsonModel {
    match j {
        Some(j) => j,
        None => JsonModel::Null,
    }
}

/// The response of an arrow function.
pub open spec fn arrow_json(body: ArrowBody) -> JsonModel {
    match body {
        ArrowBody::Block(stmts) => or_null(first_stmt_json(stmts@)),
        ArrowBody::Expr(e) => or_null(sent_json(e)),
    }
}

/// The response of a function.
pub open spec fn function_json(f: Function) -> JsonModel {
    match f.body {
        Some(stmts) => or_null(first_function_json(stmts@)),
        None => JsonModel::Null,
    }
}

fn find_stmt_json(s: &Stmt) -> (r: Option<Json>)
    ensures
        finds(r, stmt_json(*s)),
{
    match s {
        Stmt::Expr(e) => find_sent_json(e),
        Stmt::Return(Some(e)) => find_sent_json(e),
        _ => None,
    }
}

fn find_first_stmt_json(stmts: &Vec<Stmt>) -> (r: Option<Json>)
    ensures
        finds(r, first_stmt_json(stmts@)),
{
    let mut i: usize = 0;
    assert(stmts@.skip(0) =~= stmts@);
    while i < stmts.len()
        invariant
            i <= stmts@.len(),
            first_stmt_json(stmts@) == first_stmt_json(stmts@.skip(i as int)),
        decreases stmts@.len() - i,
    {
        assert(stmts@.skip(i as int).skip(1) =~= stmts@.skip(i + 1));
        let found = find_stmt_json(&stmts[i]);
        if found.is_some() {
            return found;
        }
        i += 1;
    }
    None
}

fn find_first_call_json(stmts: &Vec<Stmt>) -> (r: Option<Json>)
    ensures
        finds(r, first_call_json(stmts@)),
{
    let mut i: usize = 0;
    assert(stmts@.skip(0) =~= stmts@);
    while i < stmts.len()
        invariant
            i <= stmts@.len(),
            first_call_json(stmts@) == first_call_json(stmts@.skip(i as int)),
        decreases stmts@.len() - i,
    {
        assert(stmts@.skip(i as int).skip(1) =~= stmts@.skip(i + 1));
        if let Stmt::Expr(e) = &stmts[i] {
            let found = find_sent_json(e);
            if found.is_some() {
                return found;
            }
        }
        i += 1;
    }
    None
}

fn find_function_json(f: &Function) -> (r: Json)
    ensures
        builds(r, function_json(*f)),
{
    let stmts = match &f.body {
        Some(stmts) => stmts,
        None => {
            return Json::Null;
        },
    };
    let mut i: usize = 0;
    assert(stmts@.skip(0) =~= stmts@);
    while i < stmts.len()
        invariant
            i <= stmts@.len(),
            f.body == Some(*stmts),
            first_function_json(stmts@) == first_function_json(stmts@.skip(i as int)),
        decreases stmts@.len() - i,
    {
        assert(stmts@.skip(i as int).skip(1) =~= stmts@.skip(i + 1));
        let found = match &stmts[i] {
            Stmt::Block(inner) => find_first_call_json(inner),
            other => find_stmt_json(other),
        };
        if let Some(json) = found {
            return json;
        }
        i += 1;
    }
    Json::Null
}

// ---------------------------------------------------------------------------
// Request bodies
// ---------------------------------------------------------------------------

/// The name that a property of a pattern reads.
pub open spec fn read_name(p: PatternProp) -> Option<Seq<char>> {
    match p {
        PatternProp::Assign(name) => Some(name@),
        PatternProp::KeyValue(name) => Some(name@),
        PatternProp::Other => None,
    }
}

/// The names that a pattern reads, each with a value that is not known.
pub open spec fn read_fields(props: Seq<PatternProp>) -> Map<Seq<char>, JsonModel>
    decreases props.len(),
{
    if props.len() == 0 {
        Map::empty()
    } else {
        let before = read_fields(props.drop_last());
        match read_name(props.last()) {
            Some(name) => before.insert(name, JsonModel::Null),
            None => before,
        }
    }
}

/// Whether a pattern reads any name.
pub open spec fn reads_any(props: Seq<PatternProp>) -> bool {
    exists|i: int| 0 <= i < props.len() && read_name(#[trigger] props[i]) is Some
}

/// The fields of `const { .. } = req.body`.
pub open spec fn declarator_body(d: Declarator) -> Option<JsonModel> {
    match (d.pattern, d.init) {
        (Pattern::Object(props), Some(init)) => if ast::is_member(init, "req"@, "body"@)
            && reads_any(props@) {
            Some(JsonModel::Object(read_fields(props@)))
        } else {
            None
        },
        _ => None,
    }
}

/// The fields of the first declaration that reads the body.
pub open spec fn first_declared_body(ds: Seq<Declarator>) -> Option<JsonModel>
    decreases ds.len(),
{
    if ds.len() == 0 {
        None
    } else {
        match declarator_body(ds[0]) {
            Some(j) => Some(j),
            None => first_declared_body(ds.skip(1)),
        }
    }
}

/// The field of `req.body.field`.
pub open spec fn body_field(e: Expr) -> Option<JsonModel> {
    match e {
        Expr::Member { object, prop } => match prop {
            MemberProp::Ident(name) => if ast::is_member(*object, "req"@, "body"@) {
                Some(JsonModel::Object(Map::empty().insert(name@, JsonModel::Null)))
            } else {
                None
            },
            _ => None,
        },
        _ => None,
    }
}

/// The field that a condition tests: negated, compared or as it stands.
pub open spec fn condition_field(e: Expr) -> Option<JsonModel> {
    match e {
        Expr::Unary { op, arg } => if op == UnaryOp::Not {
            body_field(*arg)
        } else {
            None
        },
        Expr::Binary { op, left, right } => match body_field(*left) {
            Some(j) => Some(j),
            None => body_field(*right),
        },
        _ => body_field(e),
    }
}

/// What a statement reads from the body.
pub open spec fn stmt_body(s: Stmt) -> Option<JsonModel> {
    match s {
        Stmt::Var(ds) => first_declared_body(ds@),
        Stmt::Expr(e) => body_field(e),
        Stmt::If { test } => condition_field(test),
        _ => None,
    }
}

/// What the first statement that reads the body reads.
pub open spec fn first_body(stmts: Seq<Stmt>) -> Option<JsonModel>
    decreases stmts.len(),
{
    if stmts.len() == 0 {
        None
    } else {
        match stmt_body(stmts[0]) {
            Some(j) => Some(j),
            None => first_body(stmts.skip(1)),
        }
    }
}

fn find_declarator_body(d: &Declarator) -> (r: Option<Json>)
    ensures
        finds(r, declarator_body(*d)),
{
    let (props, init) = match (&d.pattern, &d.init) {
        (Pattern::Object(props), Some(init)) => (props, init),
        _ => {
            return None;
        },
    };
    if !ast::member_of(init, "req", "body") {
        return None;
    }
    let mut fields: Vec<(String, Json)> = Vec::new();
    let mut i: usize = 0;
    while i < props.len()
        invariant
            i <= props@.len(),
            object_model(fields@) == read_fields(props@.take(i as int)),
            names_distinct(fields@),
            fields_well_formed(fields@),
            fields@.len() > 0 <==> exists|k: int|
                0 <= k < i && read_name(#[trigger] props@[k]) is Some,
        decreases props@.len() - i,
    {
        assert(props@.take(i + 1).drop_last() =~= props@.take(i as int));
        match &props[i] {
            PatternProp::Assign(name) => {
                insert_field(&mut fields, name.clone(), Json::Null);
                assert(read_name(props@[i as int]) is Some);
                proof {
                    if fields@.len() == 0 {
                        assert(object_model(fields@) == Map::<Seq<char>, JsonModel>::empty());
                        assert(object_model(fields@).contains_key(name@));
                    }
                }
            },
            PatternProp::KeyValue(name) => {
                insert_field(&mut fields, name.clone(), Json::Null);
                assert(read_name(props@[i as int]) is Some);
                proof {
                    if fields@.len() == 0 {
                        assert(object_model(fields@) == Map::<Seq<char>, JsonModel>::empty());
                        assert(object_model(fields@).contains_key(name@));
                    }
                }
            },
            PatternProp::Other => {
                assert(read_name(props@[i as int]) is None);
            },
        }
        i += 1;
    }
    assert(props@.take(i as int) =~= props@);
    if fields.len() > 0 {
        Some(Json::Object(fields))
    } else {
        None
    }
}

fn find_declared_body(ds: &Vec<Declarator>) -> (r: Option<Json>)
    ensures
        finds(r, first_declared_body(ds@)),
{
    let mut i: usize = 0;
    assert(ds@.skip(0) =~= ds@);
    while i < ds.len()
        invariant
            i <= ds@.len(),
            first_declared_body(ds@) == first_declared_body(ds@.skip(i as int)),
        decreases ds@.len() - i,
    {
        assert(ds@.skip(i as int).skip(1) =~= ds@.skip(i + 1));
        let found = find_declarator_body(&ds[i]);
        if found.is_some() {
            return found;
        }
        i += 1;
    }
    None
}

fn find_body_field(e: &Expr) -> (r: Option<Json>)
    ensures
        finds(r, body_field(*e)),
{
    match e {
        Expr::Member { object, prop } => match prop {
            MemberProp::Ident(name) => {
                if !ast::member_of(object, "req", "body") {
                    return None;
                }
                let mut fields: Vec<(String, Json)> = Vec::new();
                insert_field(&mut fields, name.clone(), Json::Null);
                Some(Json::Object(fields))
            },
            _ => None,
        },
        _ => None,
    }
}

fn find_condition_field(e: &Expr) -> (r: Option<Json>)
    ensures
        finds(r, condition_field(*e)),
{
    match e {
        Expr::Unary { op, arg } => {
            if *op == UnaryOp::Not {
                find_body_field(arg)
            } else {
                None
            }
        },
        Expr::Binary { op: _, left, right } => {
            let found = find_body_field(left);
            if found.is_some() {
                found
            } else {
                find_body_field(right)
            }
        },
        _ => find_body_field(e),
    }
}

fn find_first_body(stmts: &Vec<Stmt>) -> (r: Option<Json>)
    ensures
        finds(r, first_body(stmts@)),
{
    let mut i: usize = 0;
    assert(stmts@.skip(0) =~= stmts@);
    while i < stmts.len()
        invariant
            i <= stmts@.len(),
            first_body(stmts@) == first_body(stmts@.skip(i as int)),
        decreases stmts@.len() - i,
    {
        assert(stmts@.skip(i as int).skip(1) =~= stmts@.skip(i + 1));
        let found = match &stmts[i] {
            Stmt::Var(ds) => find_declared_body(ds),
            Stmt::Expr(e) => find_body_field(e),
            Stmt::If { test } => find_condition_field(test),
            _ => None,
        };
        if found.is_some() {
            return found;
        }
        i += 1;
    }
    None
}

// ---------------------------------------------------------------------------
// The extractor
// ---------------------------------------------------------------------------

/// What a visitor can ask of a handler.
pub trait CoreExtractor {
    /// The response that an expression statement sends.
    fn extract_json_fields_from_call(&self, expr: &Expr) -> (r: Option<Json>)
        ensures
            finds(r, sent_json(*expr)),
    {
        find_sent_json(expr)
    }

    /// The response that a returned expression sends.
    fn extract_json_fields_from_return(&self, expr: &Expr) -> (r: Option<Json>)
        ensures
            finds(r, sent_json(*expr)),
    {
        find_sent_json(expr)
    }

    /// The response of an arrow function, or null.
    fn extract_fields_from_arrow(&self, body: &ArrowBody) -> (r: Json)
        ensures
            builds(r, arrow_json(*body)),
    {
        let found = match body {
            ArrowBody::Block(stmts) => find_first_stmt_json(stmts),
            ArrowBody::Expr(e) => find_sent_json(e),
        };
        match found {
            Some(json) => json,
            None => Json::Null,
        }
    }

    /// The response of a function declaration, or null.
    fn extract_fields_from_function_decl(&self, function: &Function) -> (r: Json)
        ensures
            builds(r, function_json(*function)),
    {
        find_function_json(function)
    }

    /// The response of a function expression, or null.
    fn extract_fields_from_function_expr(&self, function: &Function) -> (r: Json)
        ensures
            builds(r, function_json(*function)),
    {
        find_function_json(function)
    }

    /// The response that a call sends: the first argument of `json`, `send` or
    /// `jsonp` on the response object.
    fn extract_res_json_fields(&self, call: &Expr) -> (r: Option<Json>)
        ensures
            finds(r, sent_json(*call)),
    {
        find_sent_json(call)
    }

    /// The JSON value that an expression writes down.
    fn expr_to_json(&self, expr: &Expr) -> (r: Json)
        ensures
            builds(r, expr_json(*expr)),
    {
        json_of(expr)
    }

    /// What the first statement that reads the request body reads.
    fn extract_req_body_fields(&self, stmts: &Vec<Stmt>) -> (r: Option<Json>)
        ensures
            finds(r, first_body(stmts@)),
    {
        find_first_body(stmts)
    }

    /// The fields of `const { .. } = req.body`.
    fn extract_req_body_from_var_decl(&self, declarators: &Vec<Declarator>) -> (r: Option<Json>)
        ensures
            finds(r, first_declared_body(declarators@)),
    {
        find_declared_body(declarators)
    }

    /// The field of `req.body.field`.
    fn extract_req_body_from_expr(&self, expr: &Expr) -> (r: Option<Json>)
        ensures
            finds(r, body_field(*expr)),
    {
        find_body_field(expr)
    }

    /// The field that a condition tests.
    fn extract_req_body_from_condition(&self, expr: &Expr) -> (r: Option<Json>)
        ensures
            finds(r, condition_field(*expr)),
    {
        find_condition_field(expr)
    }
}

/// The extractor as it stands.
pub struct HandlerExtractor;

impl CoreExtractor for HandlerExtractor {
}

/// A call on anything but the response object sends nothing.
pub proof fn law_only_the_response_answers(object: Box<Expr>, prop: MemberProp, args: Vec<Expr>)
    requires
        !is_response(*object),
    ensures
        sent_json(
            (Expr::Call { callee: Some(Box::new(Expr::Member { object, prop })), args }),
        ) is None,
{
}

/// A method that does not send its argument is no response, whatever it is
/// called on.
pub proof fn law_only_sending_methods_answer(object: Box<Expr>, prop: MemberProp, args: Vec<Expr>)
    requires
        !sends(prop),
    ensures
        sent_json(
            (Expr::Call { callee: Some(Box::new(Expr::Member { object, prop })), args }),
        ) is None,
{
}

} // verus!
