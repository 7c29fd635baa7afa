//! Calls extracted from asynchronous functions by a language model: what it is
//! asked, and what is read out of its answer.

use vstd::prelude::*;

use crate::cloud_storage::TypeReference;
use crate::extractor::Json;
use crate::text;

verus! {

/// An asynchronous function, as it is shown to the model.
#[derive(Debug)]
pub struct AsyncCallContext {
    pub kind: String,
    pub function_source: String,
    pub file: String,
    pub line: u32,
    pub function_name: String,
}

/// A type that the model found at a call.
#[derive(Debug)]
pub struct TypeInfo {
    pub file_path: String,
    pub start_position: u32,
    pub composite_type_string: String,
    pub alias: String,
}

/// A call that the model found.
#[derive(Debug)]
pub struct GeminiCallResponse {
    pub route: String,
    pub method: String,
    /// The body, where there is one and it can be read.
    pub request_body: Option<Json>,
    pub request_type_info: Option<TypeInfo>,
    pub response_type_info: Option<TypeInfo>,
}

/// An outgoing call.
#[derive(Debug)]
pub struct Call {
    pub route: String,
    pub method: String,
    pub response: Json,
    pub request: Option<Json>,
    pub response_type: Option<TypeReference>,
    pub request_type: Option<TypeReference>,
    pub call_file: String,
    pub call_id: Option<String>,
    pub call_number: Option<u32>,
    pub common_type_name: Option<String>,
}

// ---------------------------------------------------------------------------
// Whether to ask
// ---------------------------------------------------------------------------

/// What is to be done about asynchronous functions.
#[derive(Clone, Copy, PartialEq, Eq, Structural, Debug)]
pub enum ExtractionPlan {
    /// Nothing is asked.
    Skip,
    /// Nothing is asked, because asking is switched off.
    Disabled,
    /// The model is asked.
    Ask {
        /// The sources are so large that a warning is due.
        large: bool,
    },
}

/// The size of the sources above which a warning is due, in bytes.
pub const MAX_REASONABLE_SIZE: u128 = 200_000;

/// The length of a text in bytes, as the machine counts it.
pub open spec fn byte_len(s: Seq<char>) -> usize {
    vstd::utf8::encode_utf8(s).len() as usize
}

/// The size of the sources in bytes.
pub open spec fn total_size(calls: Seq<AsyncCallContext>) -> int
    decreases calls.len(),
{
    if calls.len() == 0 {
        0
    } else {
        total_size(calls.drop_last()) + byte_len(calls.last().function_source@)
    }
}

/// What is to be done about asynchronous functions.
pub open spec fn extraction_plan(
    mock_all: bool,
    disabled: bool,
    calls: Seq<AsyncCallContext>,
) -> ExtractionPlan {
    if mock_all {
        ExtractionPlan::Skip
    } else if disabled {
        ExtractionPlan::Disabled
    } else if calls.len() == 0 {
        ExtractionPlan::Skip
    } else {
        ExtractionPlan::Ask { large: total_size(calls) > MAX_REASONABLE_SIZE }
    }
}

/// What is to be done about asynchronous functions: nothing where calls are
/// mocked, where asking is switched off or where there are none.
pub fn plan_extraction(mock_all: bool, disabled: bool, calls: &Vec<AsyncCallContext>) -> (r:
    ExtractionPlan)
    ensures
        r == extraction_plan(mock_all, disabled, calls@),
{
    if mock_all {
        return ExtractionPlan::Skip;
    }
    if disabled {
        return ExtractionPlan::Disabled;
    }
    if calls.len() == 0 {
        return ExtractionPlan::Skip;
    }
    let mut total: u128 = 0;
    let mut i: usize = 0;
    while i < calls.len()
        invariant
            i <= calls@.len(),
            total == total_size(calls@.take(i as int)),
            total <= i * usize::MAX,
        decreases calls@.len() - i,
    {
        assert(calls@.take(i + 1).drop_last() =~= calls@.take(i as int));
        let n = calls[i].function_source.as_str().len();
        assert(i * usize::MAX + usize::MAX <= u128::MAX) by (nonlinear_arith)
            requires
                i < usize::MAX,
        ;
        assert((i + 1) * usize::MAX == i * usize::MAX + usize::MAX) by (nonlinear_arith);
        total = total + n as u128;
        i += 1;
    }
    assert(calls@.take(i as int) =~= calls@);
    ExtractionPlan::Ask { large: total > MAX_REASONABLE_SIZE }
}

// ---------------------------------------------------------------------------
// The question
// ---------------------------------------------------------------------------

/// The standing instructions.
pub const SYSTEM_MESSAGE: &'static str = r#"You are an expert at analyzing JavaScript/TypeScript async calls for API route extraction and TypeScript type extraction.

CRITICAL REQUIREMENTS:
1. Extract ONLY HTTP requests (fetch, axios, request libraries) - ignore setTimeout, file I/O, database calls
2. Return ONLY valid JSON array starting with [ and ending with ]
3. Each object must have: route (string), method (string), request_body (object or null), has_response_type (boolean), request_type_info (object or null), response_type_info (object or null)

IMPORTANT: When analyzing Express route handlers, IGNORE the types of the handler parameters (such as req: Request<T>, res: Response<T>). These describe incoming HTTP requests to the server, NOT outgoing HTTP calls made by the server.
When extracting HTTP calls (fetch, axios, etc.), infer the request and response types from the data passed to the HTTP call and the expected result, NOT from the Express handler signature.

TYPE EXTRACTION REQUIREMENTS:
4. For outgoing HTTP calls (fetch, axios, etc.):
   a. For the response type, extract ONLY ONE type per unique HTTP call. Extract the type that is assigned directly to the result of the HTTP call (such as `const data: MyType = await response.json();`). DO NOT extract types from variables that are filtered, mapped, type-checked, or otherwise transformed versions of the raw response. Ignore all intermediate or final variables that are transformations of the original response; focus ONLY on the type as it is received directly from the HTTP call.

   CRITICAL:
   - If the result of the HTTP call is assigned to multiple variables, extract ONLY the type from the variable that is assigned the result of `await response.json()` (or equivalent), NOT from variables that are filtered, mapped, or type-checked versions of the response.
   - DO NOT extract multiple types for the same HTTP call, even if the result is assigned to multiple variables.
   - If multiple assignments are made from the same HTTP call, extract only the first assignment (the one closest to the HTTP call).

   BAD EXAMPLE:
     const raw: Foo[] = await resp.json();
     const filtered: Foo[] = filter(raw);
     // Only extract Foo[], not both.

   BAD EXAMPLE:
     const a: Bar[] = await resp.json();
     const b: Bar[] = a.filter(...);
     // Only extract Bar[], not both.

   GOOD EXAMPLE:
     const commentsRaw: {{ id: string; order_id: string }}[] = await commentsResp.json();
     const comments: {{ id: string; order_id: string }}[] = isCommentArray(commentsRaw) ? commentsRaw : [];
     // Only extract {{ id: string; order_id: string }}[] for this HTTP call.
   b. For the request type, use the type of the data passed as the request body or parameters in the HTTP call.
5. NEVER use Express handler parameter types (e.g., req: Request<T>, res: Response<T>) for outgoing HTTP calls—these describe incoming server requests, not outgoing client requests.
6. Calculate approximate character position where the type appears in the source
7. Generate meaningful alias names following pattern: MethodRouteRequest/Response (e.g., "GetUsersResponse", "PostUserRequest")

TYPE INFO OBJECT FORMAT:
- file_path: The source file path
- start_position: Approximate character position of type annotation (number)
- composite_type_string: Full type string (e.g., "Response<User[]>", "CreateUserRequest")
- alias: Generated alias name (e.g., "GetUsersResponse", "PostUserRequest")

ENVIRONMENT VARIABLE HANDLING:
- Format: "ENV_VAR:VARIABLE_NAME:path"
- process.env.API_URL + "/users" → "ENV_VAR:API_URL:/users"
- `${process.env.BASE_URL}/api/data` → "ENV_VAR:BASE_URL:/api/data"
- env.SERVICE_URL + "/health" → "ENV_VAR:SERVICE_URL:/health"

TEMPLATE LITERAL HANDLING:
- Convert ALL template literals to :id: `/users/${userId}` → "/users/:id"
- Convert ALL template literals to :id: `/users/${user_id}` → "/users/:id"
- Convert ALL template literals to :id: `/orders/${orderId}/items/${itemId}` → "/orders/:id/items/:id"
- Remove query parameters from paths: `/orders?userId=${userId}` → "/orders"

URL CONSTRUCTION:
- String concatenation: "/api" + "/users" → "/api/users"
- Mixed env vars: process.env.API + "/v1" + path → "ENV_VAR:API:/v1" + path

NO MARKDOWN, NO EXPLANATIONS - ONLY JSON ARRAY."#;

/// The question up to the functions.
pub const PROMPT_HEAD: &'static str = r#"Extract HTTP API calls from these JavaScript/TypeScript functions. Return ONLY a JSON array.

IMPORTANT: When analyzing outgoing HTTP calls (fetch, axios, etc.) inside Express route handlers:
- For the response type:
   - Extract ONLY ONE type per unique HTTP call. Extract the type that is assigned directly to the result of the HTTP call (such as `const data: MyType = await response.json();`). DO NOT extract types from variables that are filtered, mapped, type-checked, or otherwise transformed versions of the raw response. Ignore all intermediate or final variables that are transformations of the original response; focus ONLY on the type as it is received directly from the HTTP call.

   CRITICAL:
   - If the result of the HTTP call is assigned to multiple variables, extract ONLY the type from the variable that is assigned the result of `await response.json()` (or equivalent), NOT from variables that are filtered, mapped, or type-checked versions of the response.
   - DO NOT extract multiple types for the same HTTP call, even if the result is assigned to multiple variables.
   - If multiple assignments are made from the same HTTP call, extract only the first assignment (the one closest to the HTTP call).

   BAD EXAMPLE:
     const raw: Foo[] = await resp.json();
     const filtered: Foo[] = filter(raw);
     // Only extract Foo[], not both.

   BAD EXAMPLE:
     const a: Bar[] = await resp.json();
     const b: Bar[] = a.filter(...);
     // Only extract Bar[], not both.

   GOOD EXAMPLE:
     const commentsRaw: { id: string; order_id: string }[] = await commentsResp.json();
     const comments: { id: string; order_id: string }[] = isCommentArray(commentsRaw) ? commentsRaw : [];
     // Only extract { id: string; order_id: string }[] for this HTTP call.
- For the request type, use the type of the data passed as the request body or parameters in the HTTP call.
- NEVER use Express handler parameter types (e.g., req: Request<T>, res: Response<T>) for outgoing HTTP calls—these describe incoming server requests, not outgoing client requests.

FUNCTIONS TO ANALYZE:
"#;

/// The question behind the functions.
pub const PROMPT_TAIL: &'static str = r#"

EXTRACTION RULES:
1. Find HTTP calls: fetch(), axios.get/post/put/delete(), request(), etc.
2. Ignore: setTimeout, file operations, database calls, console.log
3. Extract exact route, method, request body
4. Extract TypeScript type annotations from function parameters and return types

TYPE EXTRACTION RULES:
- Look for function parameter types: (req: RequestType) → extract "RequestType"
- Look for return type annotations: ): Promise<ResponseType> → extract "ResponseType"
- Look for response variable types: const result: UserData = await...
- Calculate character position by counting from start of function
- Generate aliases: GET /users → "GetUsersResponse", POST /users → "PostUsersRequest"

ENVIRONMENT VARIABLE FORMAT:
- process.env.API_URL + "/users" → "ENV_VAR:API_URL:/users"
- process.env.BASE + "/api" + path → "ENV_VAR:BASE:/api" + path
- `${process.env.SERVICE}/endpoint` → "ENV_VAR:SERVICE:/endpoint"
- CONSTANT_VAR + "/path" → "ENV_VAR:CONSTANT_VAR:/path"

TEMPLATE LITERALS:
- `/users/${id}` → "/users/:id"
- `/users/${userId}` → "/users/:id"
- `/orders/${orderId}` → "/orders/:id"
- `/api/comments?userId=${userId}` → "/api/comments"
- `${base}/users/${id}` → "ENV_VAR:base:/users/:id"

STRING CONCATENATION:
- "/api" + "/users" → "/api/users"
- path + "/" + id → path + "/${id}"

EXAMPLES:
```
async function getUsers(req: GetUsersRequest): Promise<GetUsersResponse> {{
  return fetch(process.env.API_URL + "/users")
}}
// → {{"route":"ENV_VAR:API_URL:/users","method":"GET","request_body":null,"has_response_type":true,"request_type_info":{{"file_path":"example.ts","start_position":25,"composite_type_string":"GetUsersRequest","alias":"GetUsersRequest"}}, "response_type_info":{{"file_path":"example.ts","start_position":50,"composite_type_string":"GetUsersResponse","alias":"GetUsersResponse"}}}}

fetch(\`/users/${{userId}}/comments\`)
// → {{"route":"/users/:id/comments","method":"GET","request_body":null,"has_response_type":false,"request_type_info":null,"response_type_info":null}}

axios.post("/api/users", userData)
// → {{"route":"/api/users","method":"POST","request_body":{{"userData":"placeholder"}},"has_response_type":false,"request_type_info":null,"response_type_info":null}}
```

OUTPUT JSON ARRAY ONLY:"#;

/// The question about functions that are written out as JSON.
pub fn create_extraction_prompt(calls_json: &str) -> (r: String)
    ensures
        r@ == PROMPT_HEAD@ + calls_json@ + PROMPT_TAIL@,
{
    text::cat3(PROMPT_HEAD, calls_json, PROMPT_TAIL)
}

// ---------------------------------------------------------------------------
// The answer
// ---------------------------------------------------------------------------

/// What stands between a marker and the next closing fence.
pub open spec fn fenced(s: Seq<char>, marker: Seq<char>) -> Option<Seq<char>> {
    match text::find_from(s, marker, 0) {
        Some(start) => match text::find_from(s, "```"@, start + marker.len()) {
            Some(end) => Some(text::trim_spec(s.subrange(start + marker.len(), end))),
            None => None,
        },
        None => None,
    }
}

/// The contents of the first code block: one of JSON where there is any, else
/// the first of all; the text itself where there is none that is closed.
pub open spec fn code_block(s: Seq<char>) -> Seq<char> {
    let block = if text::find_from(s, "```json"@, 0) is Some {
        fenced(s, "```json"@)
    } else {
        fenced(s, "```"@)
    };
    match block {
        Some(b) => b,
        None => s,
    }
}

/// What stands from the first opening to the last closing square bracket; an
/// empty array where there is nothing.
pub open spec fn bracketed(s: Seq<char>) -> Seq<char> {
    let start = text::first_index(s, '[');
    let end = text::last_index(s, ']');
    if start < s.len() && end > start {
        s.subrange(start, end + 1)
    } else {
        "[]"@
    }
}

/// The lines without white space around them, empty lines and comments, one
/// after another.
pub open spec fn cleaned(lines: Seq<Seq<char>>) -> Seq<char>
    decreases lines.len(),
{
    if lines.len() == 0 {
        Seq::empty()
    } else {
        let line = text::trim_spec(lines.last());
        let before = cleaned(lines.drop_last());
        if line.len() == 0 || "//"@.is_prefix_of(line) {
            before
        } else {
            before + line
        }
    }
}

/// The readings of an answer that are tried, in their order.
pub open spec fn attempts(response: Seq<char>) -> Seq<Seq<char>> {
    let s = text::trim_spec(response);
    seq![s, code_block(s), bracketed(s), cleaned(text::split_spec(s, '\n'))]
}

fn find_fenced(s: &str, marker: &str) -> (r: Option<String>)
    ensures
        r.deep_view() == fenced(s@, marker@),
{
    let v = text::chars_of(s);
    let m = text::chars_of(marker);
    let fence = text::chars_of("```");
    proof {
        text::lemma_find_from(v@, m@, 0);
    }
    match text::find_chars(&v, &m, 0) {
        Some(start) => {
            assert(text::stands_at(v@, m@, start as int));
            assert(start + m@.len() <= v.len());
            let from = start + m.len();
            proof {
                text::lemma_find_from(v@, fence@, from as int);
            }
            match text::find_chars(&v, &fence, from) {
                Some(end) => {
                    assert(text::stands_at(v@, fence@, end as int));
                    Some(text::trim(&text::text_range(&v, from, end)))
                },
                None => None,
            }
        },
        None => None,
    }
}

/// The contents of the first code block; the text itself where there is none.
pub fn extract_from_code_block(s: &str) -> (r: String)
    ensures
        r@ == code_block(s@),
{
    let v = text::chars_of(s);
    let json = text::chars_of("```json");
    let block = if text::find_chars(&v, &json, 0).is_some() {
        find_fenced(s, "```json")
    } else {
        find_fenced(s, "```")
    };
    match block {
        Some(b) => b,
        None => text::owned(s),
    }
}

/// What stands from the first opening to the last closing square bracket.
pub fn extract_json_array(s: &str) -> (r: String)
    ensures
        r@ == bracketed(s@),
{
    let v = text::chars_of(s);
    proof {
        text::lemma_last_index(v@, ']');
    }
    if let Some(start) = text::find_char(&v, '[') {
        if let Some(end) = text::rfind_char(&v, ']') {
            assert(end < v.len());
            if end > start {
                return text::text_range(&v, start, end + 1);
            }
        }
    }
    text::owned("[]")
}

/// The lines one after another, without empty lines and comments.
pub fn clean_response(s: &str) -> (r: String)
    ensures
        r@ == cleaned(text::split_spec(s@, '\n')),
{
    let lines = text::split(s, '\n');
    let ghost l = lines.deep_view();
    let mut out = text::owned("");
    proof {
        reveal_strlit("");
        assert(out@ =~= Seq::empty());
    }
    let mut i: usize = 0;
    while i < lines.len()
        invariant
            i <= lines@.len(),
            l == lines.deep_view(),
            out@ == cleaned(l.take(i as int)),
        decreases lines@.len() - i,
    {
        assert(l.take(i + 1).drop_last() =~= l.take(i as int));
        assert(l[i as int] == lines@[i as int]@);
        let line = text::trim(&lines[i]);
        if !line.as_str().is_empty() && !text::starts_with(&line, "//") {
            out = text::cat2(&out, &line);
        }
        i += 1;
    }
    assert(l.take(i as int) =~= l);
    out
}

/// The readings of an answer that are tried, in their order: as it stands, a
/// code block in it, an array in it, and its cleaned lines.
pub fn extraction_attempts(response: &str) -> (r: Vec<String>)
    ensures
        r.deep_view() == attempts(response@),
{
    let s = text::trim(response);
    let block = extract_from_code_block(&s);
    let array = extract_json_array(&s);
    let clean = clean_response(&s);
    let mut out: Vec<String> = Vec::new();
    out.push(s);
    out.push(block);
    out.push(array);
    out.push(clean);
    assert(out.deep_view() =~= attempts(response@));
    out
}

// ---------------------------------------------------------------------------
// Calls
// ---------------------------------------------------------------------------

/// Whether a type reference says what the model said of a type.
pub open spec fn refers_to(r: Option<TypeReference>, info: Option<TypeInfo>) -> bool {
    match (r, info) {
        (Some(t), Some(i)) => {
            &&& t.file_path == i.file_path
            &&& t.type_ann is None
            &&& t.start_position == i.start_position
            &&& t.composite_type_string == i.composite_type_string
            &&& t.alias == i.alias
        },
        (None, None) => true,
        _ => false,
    }
}

/// The file of the function at a place; empty where there is none.
pub open spec fn context_file(contexts: Seq<AsyncCallContext>, i: int) -> Seq<char> {
    if 0 <= i < contexts.len() {
        contexts[i].file@
    } else {
        Seq::empty()
    }
}

/// Whether a call is what the model found, in the file.
pub open spec fn is_call_of(call: Call, found: GeminiCallResponse, file: Seq<char>) -> bool {
    &&& call.route == found.route
    &&& call.method@ == text::uppercase_text(found.method@)
    &&& call.response == Json::Null
    &&& call.request == found.request_body
    &&& refers_to(call.response_type, found.response_type_info)
    &&& refers_to(call.request_type, found.request_type_info)
    &&& call.call_file@ == file
    &&& call.call_id is None
    &&& call.call_number is None
    &&& call.common_type_name is None
}

/// Whether the calls are what the model found, one for one.
pub open spec fn are_calls_of(
    calls: Seq<Call>,
    found: Seq<GeminiCallResponse>,
    contexts: Seq<AsyncCallContext>,
) -> bool {
    calls.len() == found.len() && forall|i: int|
        0 <= i < calls.len() ==> is_call_of(
            #[trigger] calls[i],
            found[i],
            context_file(contexts, i),
        )
}

fn to_type_reference(info: Option<TypeInfo>) -> (r: Option<TypeReference>)
    ensures
        refers_to(r, info),
{
    match info {
        Some(info) => Some(
            TypeReference {
                file_path: info.file_path,
                type_ann: None,
                start_position: info.start_position as usize,
                composite_type_string: info.composite_type_string,
                alias: info.alias,
            },
        ),
        None => None,
    }
}

/// The calls that the model found, each in the file of the function at its
/// place.
pub fn convert_gemini_responses_to_calls(
    gemini_calls: Vec<GeminiCallResponse>,
    contexts: &Vec<AsyncCallContext>,
) -> (r: Vec<Call>)
    ensures
        are_calls_of(r@, gemini_calls@, contexts@),
{
    let ghost all = gemini_calls@;
    let mut out: Vec<Call> = Vec::new();
    for found in it: gemini_calls
        invariant
            it.seq() == all,
            out@.len() == it.index(),
            forall|i: int|
                0 <= i < out@.len() ==> is_call_of(
                    #[trigger] out@[i],
                    all[i],
                    context_file(contexts@, i),
                ),
    {
        let i = out.len();
        let call_file = if i < contexts.len() {
            contexts[i].file.clone()
        } else {
            proof {
                reveal_strlit("");
            }
            text::owned("")
        };
        assert(call_file@ =~= context_file(contexts@, i as int));
        let method = text::to_uppercase(&found.method);
        out.push(
            Call {
                route: found.route,
                method,
                response: Json::Null,
                request: found.request_body,
                response_type: to_type_reference(found.response_type_info),
                request_type: to_type_reference(found.request_type_info),
                call_file,
                call_id: None,
                call_number: None,
                common_type_name: None,
            },
        );
    }
    out
}

/// The first reading that could be read.
pub open spec fn first_read(readings: Seq<Option<Vec<GeminiCallResponse>>>) -> Option<
    Vec<GeminiCallResponse>,
>
    decreases readings.len(),
{
    if readings.len() == 0 {
        None
    } else if readings[0] is Some {
        readings[0]
    } else {
        first_read(readings.skip(1))
    }
}

/// The calls of an answer whose readings are given in the order of
/// [`extraction_attempts`]: those of the first that could be read.
pub fn parse_gemini_response(
    readings: Vec<Option<Vec<GeminiCallResponse>>>,
    contexts: &Vec<AsyncCallContext>,
) -> (r: Vec<Call>)
    ensures
        match first_read(readings@) {
            Some(found) => are_calls_of(r@, found@, contexts@),
            None => r@.len() == 0,
        },
{
    let ghost all = readings@;
    assert(all.skip(0) =~= all);
    for reading in it: readings
        invariant
            it.seq() == all,
            all == readings@,
            first_read(all) == first_read(all.skip(it.index())),
    {
        assert(all.skip(it.index()).skip(1) =~= all.skip(it.index() + 1));
        if let Some(found) = reading {
            return convert_gemini_responses_to_calls(found, contexts);
        }
    }
    Vec::new()
}

/// What came back from the proxy.
#[derive(Debug)]
pub enum ProxyOutcome {
    /// An answer, and whether the proxy calls it a success.
    Answered { success: bool, text: String },
    /// An answer that could not be read.
    Unreadable,
    /// A refusal with its status.
    Refused { status: u16 },
    /// No answer at all.
    Unreachable,
}

/// The text to read calls out of; without it the analysis goes on with none.
pub fn answer_text(outcome: ProxyOutcome) -> (r: Option<String>)
    ensures
        r == match outcome {
            ProxyOutcome::Answered { success, text } => if success {
                Some(text)
            } else {
                None
            },
            _ => None,
        },
{
    match outcome {
        ProxyOutcome::Answered { success, text } => {
            if success {
                Some(text)
            } else {
                None
            }
        },
        _ => None,
    }
}

/// Whether the proxy refused because of too many requests.
pub fn is_rate_limited(outcome: &ProxyOutcome) -> (r: bool)
    ensures
        r == (outcome matches ProxyOutcome::Refused { status } && status == 429),
{
    match outcome {
        ProxyOutcome::Refused { status } => *status == 429,
        _ => false,
    }
}

/// An answer that is a JSON array behind other text is tried without that text.
pub proof fn law_array_is_an_attempt(response: Seq<char>)
    requires
        text::first_index(text::trim_spec(response), '[') < text::last_index(
            text::trim_spec(response),
            ']',
        ),
    ensures
        attempts(response)[2][0] == '[',
        attempts(response)[2].last() == ']',
{
    let s = text::trim_spec(response);
    text::lemma_first_index(s, '[');
    text::lemma_last_index(s, ']');
}

} // verus!
