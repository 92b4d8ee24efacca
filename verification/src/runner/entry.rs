use vstd::prelude::*;

use vstd::string::StringExecFns;

use crate::ast::{SourceInfo, Template, TemplateElement};
use crate::runner::http::{host_of, url_host, ConnectionFailure, Cookie, HttpPair, HttpRequest,
    HttpResponse};
use crate::runner::model::{dec_of, dec_str, eval_template, first_undefined, resolved_elems,
    AssertResult, CaptureResult, EntryResult, Error, Logger, RunnerError, VariableSet};

verus! {

/// How a capture or an assertion reads the response.
#[derive(Debug)]
pub enum Query {
    Status,
    Header { name: String },
    Body,
}

/// A declared capture: a name to bind, and how to extract its value.
#[derive(Debug)]
pub struct Capture {
    pub name: String,
    pub query: Query,
    pub source_info: SourceInfo,
}

/// A declared assertion: a query and the templated text it must equal.
#[derive(Debug)]
pub struct AssertSpec {
    pub query: Query,
    pub expected: Template,
    pub source_info: SourceInfo,
}

/// What an entry expects of its response.
#[derive(Debug)]
pub struct ResponseSpec {
    pub captures: Vec<Capture>,
    pub asserts: Vec<AssertSpec>,
}

/// A templated key/value pair of a request.
#[derive(Debug)]
pub struct KeyValue {
    pub name: String,
    pub value: Template,
}

/// The request half of an entry, before template resolution: the method,
/// the templated URL, and the templated key/value lists. Body content and
/// on-disk file references are not part of this model, so resolution here
/// can only fail on an undefined variable.
#[derive(Debug)]
pub struct RequestSpec {
    pub method: String,
    pub url: Template,
    pub headers: Vec<KeyValue>,
    pub querystring: Vec<KeyValue>,
    pub form: Vec<KeyValue>,
    pub multipart: Vec<KeyValue>,
    pub cookies: Vec<KeyValue>,
    pub content_type: Option<String>,
}

/// One request/response test unit.
#[derive(Debug)]
pub struct Entry {
    pub request: RequestSpec,
    pub response: Option<ResponseSpec>,
}

/// The value of the first response header named `name`, if any.
pub open spec fn header_lookup(hs: Seq<HttpPair>, name: Seq<char>) -> Option<Seq<char>>
    decreases hs.len(),
{
    if hs.len() == 0 {
        None
    } else if hs[0].name@ == name {
        Some(hs[0].value@)
    } else {
        header_lookup(hs.drop_first(), name)
    }
}

/// What a query extracts from a response, if anything.
pub open spec fn query_value(q: Query, resp: HttpResponse) -> Option<Seq<char>> {
    match q {
        Query::Status => Some(dec_of(resp.status as int)),
        Query::Header { name } => header_lookup(resp.headers@, name@),
        Query::Body => Some(resp.body@),
    }
}

/// Find the first header with the given name.
fn lookup_header(headers: &Vec<HttpPair>, name: &String) -> (r: Option<String>)
    ensures
        r is Some <==> header_lookup(headers@, name@) is Some,
        r matches Some(s) ==> s@ == header_lookup(headers@, name@)->Some_0,
{
    let ghost hs = headers@;
    let n = headers.len();
    let mut i: usize = 0;
    proof {
        assert(hs.skip(0) =~= hs);
    }
    while i < n
        invariant
            i <= n,
            n == hs.len(),
            hs == headers@,
            header_lookup(hs, name@) == header_lookup(hs.skip(i as int), name@),
        decreases n - i,
    {
        proof {
            assert(hs.skip(i as int)[0] == hs[i as int]);
            assert(hs.skip(i as int).drop_first() =~= hs.skip(i + 1));
        }
        let h = &headers[i];
        if h.name == *name {
            return Some(h.value.clone());
        }
        i += 1;
    }
    proof {
        assert(hs.skip(n as int) =~= Seq::<HttpPair>::empty());
    }
    None
}

/// Evaluate a query against a response.
pub fn eval_query(q: &Query, resp: &HttpResponse) -> (r: Option<String>)
    ensures
        r is Some <==> query_value(*q, *resp) is Some,
        r matches Some(s) ==> s@ == query_value(*q, *resp)->Some_0,
{
    match q {
        Query::Status => Some(dec_str(resp.status as u64)),
        Query::Header { name } => lookup_header(&resp.headers, name),
        Query::Body => Some(resp.body.clone()),
    }
}

/// The index of the first capture whose query extracts nothing, or -1.
pub open spec fn first_bad_cap(caps: Seq<Capture>, resp: HttpResponse) -> int
    decreases caps.len(),
{
    if caps.len() == 0 {
        -1
    } else if query_value(caps[0].query, resp) is None {
        0
    } else {
        let r = first_bad_cap(caps.drop_first(), resp);
        if r == -1 {
            -1
        } else {
            r + 1
        }
    }
}

pub proof fn lemma_first_bad_cap_range(caps: Seq<Capture>, resp: HttpResponse)
    ensures
        first_bad_cap(caps, resp) == -1 || 0 <= first_bad_cap(caps, resp) < caps.len(),
    decreases caps.len(),
{
    if caps.len() > 0 && !(query_value(caps[0].query, resp) is None) {
        lemma_first_bad_cap_range(caps.drop_first(), resp);
    }
}

/// Evaluate every capture in declaration order. The first one that extracts
/// nothing fails the whole list; on success the results stand in order.
pub fn eval_captures(caps: &Vec<Capture>, resp: &HttpResponse) -> (r: Result<
    Vec<CaptureResult>,
    Error,
>)
    ensures
        r is Ok <==> first_bad_cap(caps@, *resp) == -1,
        r matches Ok(out) ==> out@.len() == caps@.len() && forall|i: int|
            0 <= i < caps@.len() ==> out@[i].name@ == caps@[i].name@ && Some(out@[i].value@)
                == query_value(caps@[i].query, *resp),
        r matches Err(e) ==> ({
            let k = first_bad_cap(caps@, *resp);
            &&& 0 <= k < caps@.len()
            &&& e.assert == false
            &&& e.source_info == caps@[k].source_info
            &&& e.inner matches RunnerError::CaptureFailure { name } && name@ == caps@[k].name@
        }),
{
    let ghost cs = caps@;
    let n = caps.len();
    let mut out: Vec<CaptureResult> = Vec::new();
    let mut i: usize = 0;
    proof {
        assert(cs.skip(0) =~= cs);
    }
    while i < n
        invariant
            i <= n,
            n == cs.len(),
            cs == caps@,
            out@.len() == i,
            forall|j: int|
                0 <= j < i ==> out@[j].name@ == cs[j].name@ && Some(out@[j].value@) == query_value(
                    cs[j].query,
                    *resp,
                ),
            first_bad_cap(cs, *resp) == if first_bad_cap(cs.skip(i as int), *resp) == -1 {
                -1
            } else {
                first_bad_cap(cs.skip(i as int), *resp) + i
            },
        decreases n - i,
    {
        proof {
            assert(cs.skip(i as int)[0] == cs[i as int]);
            assert(cs.skip(i as int).drop_first() =~= cs.skip(i + 1));
        }
        let c = &caps[i];
        match eval_query(&c.query, resp) {
            Some(value) => {
                out.push(CaptureResult { name: c.name.clone(), value });
                proof {
                    lemma_first_bad_cap_range(cs.skip(i + 1), *resp);
                    assert(query_value(cs[i as int].query, *resp) is Some);
                    assert(first_bad_cap(cs.skip(i as int), *resp) == (
                    if first_bad_cap(cs.skip(i + 1), *resp) == -1 {
                        -1int
                    } else {
                        first_bad_cap(cs.skip(i + 1), *resp) + 1
                    }));
                }
            },
            None => {
                return Err(Error {
                    source_info: c.source_info,
                    inner: RunnerError::CaptureFailure { name: c.name.clone() },
                    assert: false,
                });
            },
        }
        i += 1;
    }
    proof {
        assert(cs.skip(n as int) =~= Seq::<Capture>::empty());
    }
    Ok(out)
}

/// The environment after the captures have been bound over `env`, in
/// declaration order: a later capture of the same name wins.
pub open spec fn env_after(
    env: Map<Seq<char>, Seq<char>>,
    caps: Seq<Capture>,
    resp: HttpResponse,
) -> Map<Seq<char>, Seq<char>>
    decreases caps.len(),
{
    if caps.len() == 0 {
        env
    } else {
        env_after(env, caps.drop_last(), resp).insert(
            caps.last().name@,
            query_value(caps.last().query, resp)->Some_0,
        )
    }
}

/// A value captured in an entry is what later references in the same entry
/// see: once the captures are bound, the environment holds, under the
/// capture's name, exactly what its query extracted — provided no later
/// capture rebinds the same name.
pub proof fn lemma_capture_then_assert(
    env: Map<Seq<char>, Seq<char>>,
    caps: Seq<Capture>,
    resp: HttpResponse,
    i: int,
)
    requires
        0 <= i < caps.len(),
        query_value(caps[i].query, resp) is Some,
        forall|j: int| i < j < caps.len() ==> caps[j].name@ != caps[i].name@,
    ensures
        env_after(env, caps, resp).contains_key(caps[i].name@),
        env_after(env, caps, resp)[caps[i].name@] == query_value(caps[i].query, resp)->Some_0,
    decreases caps.len(),
{
    if i == caps.len() - 1 {
    } else {
        assert(forall|j: int|
            i < j < caps.drop_last().len() ==> caps.drop_last()[j].name@ != caps.drop_last()[
                i
            ].name@);
        lemma_capture_then_assert(env, caps.drop_last(), resp, i);
    }
}

/// An assertion whose expected text is a single reference to a variable
/// captured earlier in the same entry compares against the freshly captured
/// value, not a stale one.
pub proof fn lemma_assert_sees_capture(
    env: Map<Seq<char>, Seq<char>>,
    caps: Seq<Capture>,
    resp: HttpResponse,
    i: int,
    t: Template,
)
    requires
        0 <= i < caps.len(),
        query_value(caps[i].query, resp) is Some,
        forall|j: int| i < j < caps.len() ==> caps[j].name@ != caps[i].name@,
        t.elements@.len() == 1,
        t.elements@[0] matches TemplateElement::Variable { name } && name@ == caps[i].name@,
    ensures
        resolved_elems(t.elements@, env_after(env, caps, resp)) == Some(
            query_value(caps[i].query, resp)->Some_0,
        ),
{
    lemma_capture_then_assert(env, caps, resp, i);
    let envp = env_after(env, caps, resp);
    assert(t.elements@.drop_first() =~= Seq::<TemplateElement>::empty());
    assert(resolved_elems(t.elements@.drop_first(), envp) == Some(Seq::<char>::empty()));
    assert(t.elements@[0].resolved(envp) == Some(query_value(caps[i].query, resp)->Some_0));
    assert(query_value(caps[i].query, resp)->Some_0 + Seq::<char>::empty() =~= query_value(
        caps[i].query,
        resp,
    )->Some_0);
}

/// `res` is exactly the outcome of `a` under `env` against `resp`: the
/// actual and expected texts are recorded, and success means they are equal.
pub open spec fn assert_checks(
    a: AssertSpec,
    env: Map<Seq<char>, Seq<char>>,
    resp: HttpResponse,
    res: AssertResult,
) -> bool {
    &&& res.source_info == a.source_info
    &&& match query_value(a.query, resp) {
        None => res.success == false && res.actual@ == Seq::<char>::empty() && res.expected@
            == Seq::<char>::empty(),
        Some(actual) => {
            &&& res.actual@ == actual
            &&& match resolved_elems(a.expected.elements@, env) {
                None => res.success == false && res.expected@ == Seq::<char>::empty(),
                Some(expected) => res.expected@ == expected && (res.success <==> actual
                    == expected),
            }
        },
    }
}

/// Evaluate every assertion — all of them, with no short-circuit on
/// failure — and record each outcome.
pub fn eval_asserts(asserts: &Vec<AssertSpec>, env: &VariableSet, resp: &HttpResponse) -> (out: Vec<
    AssertResult,
>)
    ensures
        out@.len() == asserts@.len(),
        forall|i: int|
            0 <= i < asserts@.len() ==> assert_checks(asserts@[i], env.as_map(), *resp, out@[i]),
{
    let n = asserts.len();
    let mut out: Vec<AssertResult> = Vec::new();
    let mut i: usize = 0;
    while i < n
        invariant
            i <= n,
            n == asserts@.len(),
            out@.len() == i,
            forall|j: int|
                0 <= j < i ==> assert_checks(asserts@[j], env.as_map(), *resp, out@[j]),
        decreases n - i,
    {
        let a = &asserts[i];
        let res = match eval_query(&a.query, resp) {
            None => AssertResult {
                success: false,
                actual: String::new(),
                expected: String::new(),
                source_info: a.source_info,
            },
            Some(actual) => match eval_template(&a.expected, env) {
                Err(_) => AssertResult {
                    success: false,
                    actual,
                    expected: String::new(),
                    source_info: a.source_info,
                },
                Ok(expected) => {
                    let success = actual == expected;
                    AssertResult { success, actual, expected, source_info: a.source_info }
                },
            },
        };
        out.push(res);
        i += 1;
    }
    out
}

/// `e` is the assertion-failure error for `res`.
pub open spec fn error_for(e: Error, res: AssertResult) -> bool {
    &&& e.assert == true
    &&& e.source_info == res.source_info
    &&& e.inner matches RunnerError::AssertFailure { actual, expected } && actual@ == res.actual@
        && expected@ == res.expected@
}

/// `errors` holds exactly one assertion-failure error per failing result,
/// in order.
pub open spec fn errors_match_failures(errors: Seq<Error>, results: Seq<AssertResult>) -> bool
    decreases results.len(),
{
    if results.len() == 0 {
        errors.len() == 0
    } else if results.last().success {
        errors_match_failures(errors, results.drop_last())
    } else {
        &&& errors.len() > 0
        &&& error_for(errors.last(), results.last())
        &&& errors_match_failures(errors.drop_last(), results.drop_last())
    }
}

/// Collect one error per failing assertion, keeping their order.
pub fn collect_assert_errors(results: &Vec<AssertResult>) -> (out: Vec<Error>)
    ensures
        errors_match_failures(out@, results@),
{
    let n = results.len();
    let mut out: Vec<Error> = Vec::new();
    let mut i: usize = 0;
    proof {
        assert(results@.take(0) =~= Seq::<AssertResult>::empty());
    }
    while i < n
        invariant
            i <= n,
            n == results@.len(),
            errors_match_failures(out@, results@.take(i as int)),
        decreases n - i,
    {
        proof {
            assert(results@.take(i + 1).drop_last() =~= results@.take(i as int));
            assert(results@.take(i + 1).last() == results@[i as int]);
        }
        let res = &results[i];
        if !res.success {
            let ghost pre = out@;
            out.push(Error {
                source_info: res.source_info,
                inner: RunnerError::AssertFailure {
                    actual: res.actual.clone(),
                    expected: res.expected.clone(),
                },
                assert: true,
            });
            proof {
                assert(out@.drop_last() =~= pre);
            }
        }
        i += 1;
    }
    proof {
        assert(results@.take(n as int) =~= results@);
    }
    out
}

/// The index of the first pair whose value template does not resolve, or -1.
pub open spec fn first_bad_kv(list: Seq<KeyValue>, env: Map<Seq<char>, Seq<char>>) -> int
    decreases list.len(),
{
    if list.len() == 0 {
        -1
    } else if resolved_elems(list[0].value.elements@, env) is None {
        0
    } else {
        let r = first_bad_kv(list.drop_first(), env);
        if r == -1 {
            -1
        } else {
            r + 1
        }
    }
}

pub proof fn lemma_first_bad_kv_range(list: Seq<KeyValue>, env: Map<Seq<char>, Seq<char>>)
    ensures
        first_bad_kv(list, env) == -1 || 0 <= first_bad_kv(list, env) < list.len(),
    decreases list.len(),
{
    if list.len() > 0 && !(resolved_elems(list[0].value.elements@, env) is None) {
        lemma_first_bad_kv_range(list.drop_first(), env);
    }
}

/// The resolved pairs stand for the declared list under `env`.
pub open spec fn pairs_match(
    ps: Seq<HttpPair>,
    list: Seq<KeyValue>,
    env: Map<Seq<char>, Seq<char>>,
) -> bool {
    &&& ps.len() == list.len()
    &&& forall|i: int|
        0 <= i < list.len() ==> ps[i].name@ == list[i].name@ && Some(ps[i].value@)
            == resolved_elems(list[i].value.elements@, env)
}

/// Resolve one key/value list; the first unresolved value fails it.
fn eval_kv_list(list: &Vec<KeyValue>, env: &VariableSet) -> (r: Result<Vec<HttpPair>, Error>)
    ensures
        r is Ok <==> first_bad_kv(list@, env.as_map()) == -1,
        r matches Ok(ps) ==> pairs_match(ps@, list@, env.as_map()),
        r matches Err(e) ==> ({
            let k = first_bad_kv(list@, env.as_map());
            &&& 0 <= k < list@.len()
            &&& e.assert == false
            &&& e.source_info == list@[k].value.source_info
            &&& e.inner matches RunnerError::TemplateVariableNotDefined { name } && Some(name@)
                == first_undefined(list@[k].value.elements@, env.as_map())
        }),
{
    let ghost ls = list@;
    let n = list.len();
    let mut out: Vec<HttpPair> = Vec::new();
    let mut i: usize = 0;
    proof {
        assert(ls.skip(0) =~= ls);
    }
    while i < n
        invariant
            i <= n,
            n == ls.len(),
            ls == list@,
            out@.len() == i,
            forall|j: int|
                0 <= j < i ==> out@[j].name@ == ls[j].name@ && Some(out@[j].value@)
                    == resolved_elems(ls[j].value.elements@, env.as_map()),
            first_bad_kv(ls, env.as_map()) == if first_bad_kv(ls.skip(i as int), env.as_map())
                == -1 {
                -1
            } else {
                first_bad_kv(ls.skip(i as int), env.as_map()) + i
            },
        decreases n - i,
    {
        proof {
            assert(ls.skip(i as int)[0] == ls[i as int]);
            assert(ls.skip(i as int).drop_first() =~= ls.skip(i + 1));
        }
        let kv = &list[i];
        match eval_template(&kv.value, env) {
            Ok(value) => {
                out.push(HttpPair { name: kv.name.clone(), value });
                proof {
                    lemma_first_bad_kv_range(ls.skip(i + 1), env.as_map());
                    assert(resolved_elems(ls[i as int].value.elements@, env.as_map()) is Some);
                    assert(first_bad_kv(ls.skip(i as int), env.as_map()) == (
                    if first_bad_kv(ls.skip(i + 1), env.as_map()) == -1 {
                        -1int
                    } else {
                        first_bad_kv(ls.skip(i + 1), env.as_map()) + 1
                    }));
                }
            },
            Err(e) => {
                return Err(e);
            },
        }
        i += 1;
    }
    proof {
        assert(ls.skip(n as int) =~= Seq::<KeyValue>::empty());
    }
    Ok(out)
}

/// The whole request resolves under `env`.
pub open spec fn request_ok(rs: RequestSpec, env: Map<Seq<char>, Seq<char>>) -> bool {
    &&& resolved_elems(rs.url.elements@, env) is Some
    &&& first_bad_kv(rs.headers@, env) == -1
    &&& first_bad_kv(rs.querystring@, env) == -1
    &&& first_bad_kv(rs.form@, env) == -1
    &&& first_bad_kv(rs.multipart@, env) == -1
    &&& first_bad_kv(rs.cookies@, env) == -1
}

/// `req` is exactly the resolution of `rs` under `env`.
pub open spec fn request_matches(
    req: HttpRequest,
    rs: RequestSpec,
    env: Map<Seq<char>, Seq<char>>,
) -> bool {
    &&& req.method@ == rs.method@
    &&& Some(req.url@) == resolved_elems(rs.url.elements@, env)
    &&& pairs_match(req.headers@, rs.headers@, env)
    &&& pairs_match(req.querystring@, rs.querystring@, env)
    &&& pairs_match(req.form@, rs.form@, env)
    &&& pairs_match(req.multipart@, rs.multipart@, env)
    &&& pairs_match(req.cookies@, rs.cookies@, env)
    &&& match rs.content_type {
        Some(s) => req.content_type matches Some(c) && c@ == s@,
        None => req.content_type is None,
    }
}

/// `e` is the template error that resolving `rs` under `env` hits first,
/// checking the URL, then headers, query, form, multipart and cookie lists.
pub open spec fn is_request_error(e: Error, rs: RequestSpec, env: Map<Seq<char>, Seq<char>>) -> bool {
    if resolved_elems(rs.url.elements@, env) is None {
        &&& e.assert == false
        &&& e.source_info == rs.url.source_info
        &&& e.inner matches RunnerError::TemplateVariableNotDefined { name } && Some(name@)
            == first_undefined(rs.url.elements@, env)
    } else {
        let lists = seq![rs.headers@, rs.querystring@, rs.form@, rs.multipart@, rs.cookies@];
        exists|li: int|
            0 <= li < lists.len() && #[trigger] first_bad_kv(lists[li], env) >= 0 && (forall|
                m: int,
            |
                0 <= m < li ==> first_bad_kv(lists[m], env) == -1) && ({
                let k = first_bad_kv(lists[li], env);
                &&& e.assert == false
                &&& e.source_info == lists[li][k].value.source_info
                &&& e.inner matches RunnerError::TemplateVariableNotDefined { name } && Some(
                    name@,
                ) == first_undefined(lists[li][k].value.elements@, env)
            })
    }
}

/// Resolve a whole request against the environment: URL first, then each
/// key/value list in a fixed order; the first undefined variable fails the
/// entry.
pub fn eval_request(rs: &RequestSpec, env: &VariableSet) -> (r: Result<HttpRequest, Error>)
    ensures
        r is Ok <==> request_ok(*rs, env.as_map()),
        r matches Ok(req) ==> request_matches(req, *rs, env.as_map()),
        r matches Err(e) ==> is_request_error(e, *rs, env.as_map()),
{
    let ghost envm = env.as_map();
    let ghost lists = seq![
        rs.headers@,
        rs.querystring@,
        rs.form@,
        rs.multipart@,
        rs.cookies@,
    ];
    let url = match eval_template(&rs.url, env) {
        Ok(u) => u,
        Err(e) => {
            return Err(e);
        },
    };
    let headers = match eval_kv_list(&rs.headers, env) {
        Ok(v) => v,
        Err(e) => {
            proof {
                assert(lists[0] == rs.headers@);
            }
            return Err(e);
        },
    };
    let querystring = match eval_kv_list(&rs.querystring, env) {
        Ok(v) => v,
        Err(e) => {
            proof {
                assert(lists[1] == rs.querystring@);
            }
            return Err(e);
        },
    };
    let form = match eval_kv_list(&rs.form, env) {
        Ok(v) => v,
        Err(e) => {
            proof {
                assert(lists[2] == rs.form@);
            }
            return Err(e);
        },
    };
    let multipart = match eval_kv_list(&rs.multipart, env) {
        Ok(v) => v,
        Err(e) => {
            proof {
                assert(lists[3] == rs.multipart@);
            }
            return Err(e);
        },
    };
    let cookies = match eval_kv_list(&rs.cookies, env) {
        Ok(v) => v,
        Err(e) => {
            proof {
                assert(lists[4] == rs.cookies@);
            }
            return Err(e);
        },
    };
    let content_type = match &rs.content_type {
        Some(s) => Some(s.clone()),
        None => None,
    };
    Ok(HttpRequest {
        method: rs.method.clone(),
        url,
        headers,
        querystring,
        form,
        multipart,
        cookies,
        content_type,
    })
}

/// A `name: value` log line.
pub open spec fn pair_line(name: Seq<char>, value: Seq<char>) -> Seq<char> {
    name + ": "@ + value
}

pub open spec fn pair_lines(ps: Seq<HttpPair>) -> Seq<Seq<char>> {
    ps.map_values(|p: HttpPair| pair_line(p.name@, p.value@))
}

/// A titled block of pair lines, omitted entirely when the list is empty.
pub open spec fn section_lines(title: Seq<char>, ps: Seq<HttpPair>) -> Seq<Seq<char>> {
    if ps.len() == 0 {
        Seq::empty()
    } else {
        seq![title] + pair_lines(ps)
    }
}

/// Every line that `log_request` writes for a request, in order.
pub open spec fn request_log_lines(req: HttpRequest) -> Seq<Seq<char>> {
    seq!["Request"@, req.method@ + " "@ + req.url@] + pair_lines(req.headers@) + section_lines(
        "[QueryStringParams]"@,
        req.querystring@,
    ) + section_lines("[FormParams]"@, req.form@) + section_lines(
        "[MultipartFormData]"@,
        req.multipart@,
    ) + section_lines("[Cookies]"@, req.cookies@) + (match req.content_type {
        Some(s) => seq![""@, "implicit content-type="@ + s@],
        None => Seq::empty(),
    }) + seq![""@]
}

/// Write one `name: value` line per pair.
fn log_pairs(logger: &mut Logger, pairs: &Vec<HttpPair>)
    ensures
        final(logger).lines_view() == old(logger).lines_view() + pair_lines(pairs@),
{
    let n = pairs.len();
    let mut i: usize = 0;
    proof {
        assert(pairs@.take(0) =~= Seq::<HttpPair>::empty());
        assert(old(logger).lines_view() + pair_lines(pairs@.take(0)) =~= old(
            logger,
        ).lines_view());
    }
    while i < n
        invariant
            i <= n,
            n == pairs@.len(),
            logger.lines_view() == old(logger).lines_view() + pair_lines(pairs@.take(i as int)),
        decreases n - i,
    {
        let p = &pairs[i];
        let mut line = p.name.clone();
        line.append(": ");
        line.append(p.value.as_str());
        logger.verbose(line.as_str());
        i += 1;
        proof {
            assert(pairs@.take(i as int).drop_last() =~= pairs@.take(i - 1));
            assert(pair_lines(pairs@.take(i as int)) =~= pair_lines(pairs@.take(i - 1)).push(
                pair_line(pairs@[i - 1].name@, pairs@[i - 1].value@),
            ));
            assert(logger.lines_view() =~= old(logger).lines_view() + pair_lines(
                pairs@.take(i as int),
            ));
        }
    }
    proof {
        assert(pairs@.take(n as int) =~= pairs@);
    }
}

/// Describe a resolved request on the verbose sink: its method and URL, its
/// headers, and each non-empty parameter section, closed by a blank line.
#[verifier::rlimit(100)]
pub fn log_request(logger: &mut Logger, request: &HttpRequest)
    ensures
        final(logger).lines_view() == old(logger).lines_view() + request_log_lines(*request),
{
    logger.verbose("Request");
    let mut line = request.method.clone();
    line.append(" ");
    line.append(request.url.as_str());
    logger.verbose(line.as_str());
    log_pairs(logger, &request.headers);
    if request.querystring.len() > 0 {
        logger.verbose("[QueryStringParams]");
        log_pairs(logger, &request.querystring);
    }
    if request.form.len() > 0 {
        logger.verbose("[FormParams]");
        log_pairs(logger, &request.form);
    }
    if request.multipart.len() > 0 {
        logger.verbose("[MultipartFormData]");
        log_pairs(logger, &request.multipart);
    }
    if request.cookies.len() > 0 {
        logger.verbose("[Cookies]");
        log_pairs(logger, &request.cookies);
    }
    match &request.content_type {
        Some(s) => {
            logger.verbose("");
            let mut ct = "implicit content-type=".to_owned();
            ct.append(s.as_str());
            logger.verbose(ct.as_str());
        },
        None => {},
    }
    logger.verbose("");
    proof {
        assert(final(logger).lines_view() =~= old(logger).lines_view() + request_log_lines(
            *request,
        ));
    }
}

/// The cookies to seed into the store before sending `req`: one per cookie
/// literal when the URL has a host, none when it has not (a malformed URL
/// is passed over here, and surfaces when the request is executed).
pub open spec fn cookies_seeded(cs: Seq<Cookie>, req: HttpRequest) -> bool {
    match host_of(req.url@) {
        None => cs.len() == 0,
        Some(h) => {
            &&& cs.len() == req.cookies@.len()
            &&& forall|i: int|
                0 <= i < cs.len() ==> (#[trigger] cs[i]).domain@ == h && cs[i].include_subdomain@
                    == "FALSE"@ && cs[i].path@ == "/"@ && cs[i].https@ == "FALSE"@ && cs[
                    i
                ].expires@ == "0"@ && cs[i].name@ == req.cookies@[i].name@ && cs[i].value@
                    == req.cookies@[i].value@
        },
    }
}

/// What template resolution decided for one entry: either a terminal result
/// carrying the single template error, or the resolved request with the
/// cookies to seed.
pub enum Prepared {
    Failed(EntryResult),
    Ready { request: HttpRequest, cookies: Vec<Cookie> },
}

/// The first stage of running an entry: resolve the request templates
/// against the variable environment, announce the entry on the verbose
/// sink, and work out the cookies to seed. A template failure is terminal:
/// the entry result carries that single error and nothing was logged.
pub fn prepare(entry: &Entry, variables: &VariableSet, entry_index: usize, logger: &mut Logger) -> (r:
    Prepared)
    requires
        entry_index < usize::MAX,
    ensures
        !request_ok(entry.request, variables.as_map()) ==> *final(logger) == *old(logger) && (
        r matches Prepared::Failed(res) && res.request is None && res.response is None
            && res.captures@.len() == 0 && res.asserts@.len() == 0 && res.time_in_ms == 0
            && res.errors@.len() == 1 && is_request_error(
            res.errors@[0],
            entry.request,
            variables.as_map(),
        )),
        request_ok(entry.request, variables.as_map()) ==> (r matches Prepared::Ready {
            request,
            cookies,
        } && request_matches(request, entry.request, variables.as_map()) && cookies_seeded(
            cookies@,
            request,
        ) && final(logger).lines_view() == old(logger).lines_view() + seq![
            "------------------------------------------------------------------------------"@,
            "executing entry "@ + dec_of(entry_index + 1),
        ]),
{
    let http_request = match eval_request(&entry.request, variables) {
        Ok(r) => r,
        Err(error) => {
            let mut errors: Vec<Error> = Vec::new();
            errors.push(error);
            return Prepared::Failed(EntryResult {
                request: None,
                response: None,
                captures: Vec::new(),
                asserts: Vec::new(),
                errors,
                time_in_ms: 0,
            });
        },
    };
    logger.verbose(
        "------------------------------------------------------------------------------",
    );
    let mut announce = "executing entry ".to_owned();
    announce.append(dec_str(entry_index as u64 + 1).as_str());
    logger.verbose(announce.as_str());
    let mut cookies: Vec<Cookie> = Vec::new();
    match url_host(http_request.url.as_str()) {
        Some(host) => {
            let n = http_request.cookies.len();
            let mut i: usize = 0;
            while i < n
                invariant
                    i <= n,
                    n == http_request.cookies@.len(),
                    host_of(http_request.url@) is Some,
                    host@ == host_of(http_request.url@)->Some_0,
                    cookies@.len() == i,
                    forall|j: int|
                        0 <= j < i ==> (#[trigger] cookies@[j]).domain@ == host@ && cookies@[
                            j
                        ].include_subdomain@ == "FALSE"@ && cookies@[j].path@ == "/"@ && cookies@[
                            j
                        ].https@ == "FALSE"@ && cookies@[j].expires@ == "0"@ && cookies@[j].name@
                            == http_request.cookies@[j].name@ && cookies@[j].value@
                            == http_request.cookies@[j].value@,
                decreases n - i,
            {
                let c = &http_request.cookies[i];
                cookies.push(Cookie {
                    domain: host.clone(),
                    include_subdomain: "FALSE".to_owned(),
                    path: "/".to_owned(),
                    https: "FALSE".to_owned(),
                    expires: "0".to_owned(),
                    name: c.name.clone(),
                    value: c.value.clone(),
                });
                i += 1;
            }
        },
        None => {},
    }
    proof {
        assert(final(logger).lines_view() =~= old(logger).lines_view() + seq![
            "------------------------------------------------------------------------------"@,
            "executing entry "@ + dec_of(entry_index + 1),
        ]);
    }
    Prepared::Ready { request: http_request, cookies }
}

/// The response-time line that opens the conclusion of a successful send.
pub open spec fn time_line(t: u64) -> Seq<char> {
    "Response Time: "@ + dec_of(t as int) + "ms"@
}

/// The capture block of the verbose log: a title and one line per capture,
/// omitted entirely when nothing was captured.
pub open spec fn capture_log_lines(caps: Seq<CaptureResult>) -> Seq<Seq<char>> {
    if caps.len() == 0 {
        Seq::empty()
    } else {
        seq!["Captures"@] + caps.map_values(|c: CaptureResult| c.name@ + ": "@ + c.value@)
    }
}

/// Write one `name: value` line per capture.
fn log_captures(logger: &mut Logger, caps: &Vec<CaptureResult>)
    ensures
        final(logger).lines_view() == old(logger).lines_view() + caps@.map_values(
            |c: CaptureResult| c.name@ + ": "@ + c.value@,
        ),
{
    let n = caps.len();
    let mut i: usize = 0;
    proof {
        assert(old(logger).lines_view() + caps@.take(0).map_values(
            |c: CaptureResult| c.name@ + ": "@ + c.value@,
        ) =~= old(logger).lines_view());
    }
    while i < n
        invariant
            i <= n,
            n == caps@.len(),
            logger.lines_view() == old(logger).lines_view() + caps@.take(i as int).map_values(
                |c: CaptureResult| c.name@ + ": "@ + c.value@,
            ),
        decreases n - i,
    {
        let c = &caps[i];
        let mut line = c.name.clone();
        line.append(": ");
        line.append(c.value.as_str());
        logger.verbose(line.as_str());
        i += 1;
        proof {
            assert(logger.lines_view() =~= old(logger).lines_view() + caps@.take(
                i as int,
            ).map_values(|c: CaptureResult| c.name@ + ": "@ + c.value@));
        }
    }
    proof {
        assert(caps@.take(n as int) =~= caps@);
    }
}

/// The second stage of running an entry, once the transport has answered
/// or failed. A connection failure is terminal and leaves the variable
/// environment untouched, so the following entries still run with whatever
/// state existed before. On a response, the captures are evaluated in
/// order — the first miss is terminal for the entry — and bound into the
/// environment before any assertion runs; then every assertion is
/// evaluated, with no short-circuit, and each failure becomes one error of
/// the result.
pub fn conclude(
    entry: &Entry,
    request: HttpRequest,
    outcome: Result<HttpResponse, ConnectionFailure>,
    time_in_ms: u64,
    variables: &mut VariableSet,
    logger: &mut Logger,
) -> (r: EntryResult)
    ensures
        outcome matches Err(f) ==> {
            &&& *final(variables) == *old(variables)
            &&& *final(logger) == *old(logger)
            &&& r.request == Some(request)
            &&& r.response is None
            &&& r.captures@.len() == 0 && r.asserts@.len() == 0
            &&& r.time_in_ms == 0
            &&& r.errors@.len() == 1 && r.errors@[0].assert == false
                && r.errors@[0].source_info == entry.request.url.source_info
            &&& r.errors@[0].inner matches RunnerError::HttpConnection { message, url }
                && message@ == f.message@ && url@ == request.url@
        },
        outcome matches Ok(resp) ==> {
            &&& r.request == Some(request)
            &&& r.response == Some(resp)
            &&& match entry.response {
                None => {
                    &&& *final(variables) == *old(variables)
                    &&& r.captures@.len() == 0 && r.asserts@.len() == 0 && r.errors@.len() == 0
                    &&& r.time_in_ms == time_in_ms
                    &&& final(logger).lines_view() == old(logger).lines_view() + seq![
                        time_line(time_in_ms),
                        ""@,
                    ]
                },
                Some(rspec) => {
                    let k = first_bad_cap(rspec.captures@, resp);
                    if k >= 0 {
                        &&& *final(variables) == *old(variables)
                        &&& r.captures@.len() == 0 && r.asserts@.len() == 0
                        &&& r.time_in_ms == time_in_ms
                        &&& r.errors@.len() == 1 && r.errors@[0].assert == false
                            && r.errors@[0].source_info == rspec.captures@[k].source_info
                        &&& r.errors@[0].inner matches RunnerError::CaptureFailure { name }
                            && name@ == rspec.captures@[k].name@
                        &&& final(logger).lines_view() == old(logger).lines_view() + seq![
                            time_line(time_in_ms),
                        ]
                    } else {
                        let envp = env_after(old(variables).as_map(), rspec.captures@, resp);
                        &&& r.captures@.len() == rspec.captures@.len()
                        &&& forall|i: int|
                            0 <= i < rspec.captures@.len() ==> (#[trigger] r.captures@[i]).name@
                                == rspec.captures@[i].name@ && Some(r.captures@[i].value@)
                                == query_value(rspec.captures@[i].query, resp)
                        &&& final(variables).as_map() == envp
                        &&& r.asserts@.len() == rspec.asserts@.len()
                        &&& forall|i: int|
                            0 <= i < rspec.asserts@.len() ==> assert_checks(
                                rspec.asserts@[i],
                                envp,
                                resp,
                                #[trigger] r.asserts@[i],
                            )
                        &&& errors_match_failures(r.errors@, r.asserts@)
                        &&& r.time_in_ms == time_in_ms
                        &&& final(logger).lines_view() == old(logger).lines_view() + seq![
                            time_line(time_in_ms),
                        ] + capture_log_lines(r.captures@) + seq![""@]
                    }
                },
            }
        },
{
    let resp = match outcome {
        Err(f) => {
            let url = request.url.clone();
            let mut errors: Vec<Error> = Vec::new();
            errors.push(Error {
                source_info: entry.request.url.source_info,
                inner: RunnerError::HttpConnection { message: f.message, url },
                assert: false,
            });
            return EntryResult {
                request: Some(request),
                response: None,
                captures: Vec::new(),
                asserts: Vec::new(),
                errors,
                time_in_ms: 0,
            };
        },
        Ok(resp) => resp,
    };
    let mut tl = "Response Time: ".to_owned();
    tl.append(dec_str(time_in_ms).as_str());
    tl.append("ms");
    logger.verbose(tl.as_str());
    let rspec = match &entry.response {
        None => {
            logger.verbose("");
            proof {
                assert(final(logger).lines_view() =~= old(logger).lines_view() + seq![
                    time_line(time_in_ms),
                    ""@,
                ]);
            }
            return EntryResult {
                request: Some(request),
                response: Some(resp),
                captures: Vec::new(),
                asserts: Vec::new(),
                errors: Vec::new(),
                time_in_ms,
            };
        },
        Some(rspec) => rspec,
    };
    let caps = match eval_captures(&rspec.captures, &resp) {
        Err(e) => {
            let mut errors: Vec<Error> = Vec::new();
            errors.push(e);
            proof {
                assert(final(logger).lines_view() =~= old(logger).lines_view() + seq![
                    time_line(time_in_ms),
                ]);
            }
            return EntryResult {
                request: Some(request),
                response: Some(resp),
                captures: Vec::new(),
                asserts: Vec::new(),
                errors,
                time_in_ms,
            };
        },
        Ok(caps) => caps,
    };
    // Bind every captured value before any assertion runs, so assertions in
    // this same entry see what was just captured.
    let ghost env0 = variables.as_map();
    let ghost capspec = rspec.captures@;
    let n = caps.len();
    let mut i: usize = 0;
    proof {
        assert(capspec.take(0) =~= Seq::<Capture>::empty());
    }
    while i < n
        invariant
            i <= n,
            n == caps@.len(),
            n == capspec.len(),
            capspec == rspec.captures@,
            forall|j: int|
                0 <= j < n ==> (#[trigger] caps@[j]).name@ == capspec[j].name@ && Some(
                    caps@[j].value@,
                ) == query_value(capspec[j].query, resp),
            variables.as_map() == env_after(env0, capspec.take(i as int), resp),
            env0 == old(variables).as_map(),
        decreases n - i,
    {
        let c = &caps[i];
        variables.insert(c.name.clone(), c.value.clone());
        i += 1;
        proof {
            assert(capspec.take(i as int).drop_last() =~= capspec.take(i - 1));
            assert(capspec.take(i as int).last() == capspec[i - 1]);
        }
    }
    proof {
        assert(capspec.take(n as int) =~= capspec);
    }
    let asserts = eval_asserts(&rspec.asserts, variables, &resp);
    let errors = collect_assert_errors(&asserts);
    if caps.len() > 0 {
        logger.verbose("Captures");
        log_captures(logger, &caps);
    }
    logger.verbose("");
    let result = EntryResult {
        request: Some(request),
        response: Some(resp),
        captures: caps,
        asserts,
        errors,
        time_in_ms,
    };
    proof {
        assert(final(logger).lines_view() =~= old(logger).lines_view() + seq![
            time_line(time_in_ms),
        ] + capture_log_lines(result.captures@) + seq![""@]);
    }
    result
}

} // verus!
