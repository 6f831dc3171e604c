//! Routing and handlers: a parsed request's method and path pick one of
//! the fixed routes, in priority order, and the matched handler decides
//! the response — directly, or as a file action whose outcome a second
//! step turns into the response.
use vstd::prelude::*;

use crate::ascii::echo_prefix;
use crate::ascii::echo_prefix_vec;
use crate::ascii::files_prefix;
use crate::ascii::files_prefix_vec;
use crate::ascii::get_method;
use crate::ascii::get_method_vec;
use crate::ascii::octet_stream;
use crate::ascii::octet_stream_vec;
use crate::ascii::post_method;
use crate::ascii::post_method_vec;
use crate::ascii::post_payload_key;
use crate::ascii::post_payload_key_vec;
use crate::ascii::root_path;
use crate::ascii::root_path_vec;
use crate::ascii::text_plain;
use crate::ascii::text_plain_vec;
use crate::ascii::user_agent_key;
use crate::ascii::user_agent_key_vec;
use crate::ascii::user_agent_path;
use crate::ascii::user_agent_path_vec;
use crate::request::parse_ok;
use crate::request::parse_request;
use crate::request::spec_method;
use crate::request::spec_path;
use crate::request::spec_payload;
use crate::request::Request;
use crate::request::RequestError;
use crate::response::spec_render;
use crate::response::Response;
use crate::response::ResponseModel;
use crate::response::Status;
use crate::scan::bytes_eq;
use crate::scan::copy_bytes;
use crate::scan::copy_range;
use crate::scan::has_prefix;
use crate::scan::starts_with;

verus! {

/// What the matched handler decided: a finished response, a file action
/// for the store, or dropping the connection without a response.
pub enum Plan {
    /// Answer with this response.
    Respond(Response),
    /// Read the named file; its outcome decides the response.
    ReadFile(Vec<u8>),
    /// Write the body to the named file; success decides the response.
    WriteFile(Vec<u8>, Vec<u8>),
    /// Drop the connection without answering.
    Abort(RequestError),
}

/// The mathematical image of a plan.
pub enum PlanModel {
    Respond(ResponseModel),
    ReadFile(Seq<u8>),
    WriteFile(Seq<u8>, Seq<u8>),
    Abort(RequestError),
}

impl View for Plan {
    type V = PlanModel;

    open spec fn view(&self) -> PlanModel {
        match self {
            Plan::Respond(r) => PlanModel::Respond(r@),
            Plan::ReadFile(name) => PlanModel::ReadFile(name@),
            Plan::WriteFile(name, data) => PlanModel::WriteFile(name@, data@),
            Plan::Abort(e) => PlanModel::Abort(*e),
        }
    }
}

/// The root probe's response: a bare success.
pub open spec fn root_response() -> ResponseModel {
    ResponseModel { status: Status::Success, content_type: None, body: None }
}

/// A plain-text success carrying `body`.
pub open spec fn text_response(body: Seq<u8>) -> ResponseModel {
    ResponseModel { status: Status::Success, content_type: Some(text_plain()), body: Some(body) }
}

/// The bare not-found response.
pub open spec fn not_found_response() -> ResponseModel {
    ResponseModel { status: Status::NotFound, content_type: None, body: None }
}

/// The routing table: the first pattern that method and path match
/// decides, exact patterns before prefix patterns, and no match falls
/// through to the not-found response.
pub open spec fn spec_route(
    method: Seq<u8>,
    path: Seq<u8>,
    payload: Map<Seq<u8>, Seq<u8>>,
) -> PlanModel {
    if method == get_method() && path == root_path() {
        PlanModel::Respond(root_response())
    } else if method == get_method() && path == user_agent_path() {
        if payload.contains_key(user_agent_key()) {
            PlanModel::Respond(text_response(payload[user_agent_key()]))
        } else {
            PlanModel::Abort(RequestError::MissingHeader)
        }
    } else if method == get_method() && has_prefix(path, echo_prefix()) {
        PlanModel::Respond(text_response(path.skip(echo_prefix().len() as int)))
    } else if method == get_method() && has_prefix(path, files_prefix()) {
        PlanModel::ReadFile(path.skip(files_prefix().len() as int))
    } else if method == post_method() && has_prefix(path, files_prefix()) {
        if payload.contains_key(post_payload_key()) {
            PlanModel::WriteFile(path.skip(files_prefix().len() as int), payload[post_payload_key()])
        } else {
            PlanModel::Abort(RequestError::MissingBody)
        }
    } else {
        PlanModel::Respond(not_found_response())
    }
}

/// Routes one parsed request to its handler and returns what that
/// handler decided.
pub fn route(req: &Request) -> (p: Plan)
    requires
        req.wf(),
    ensures
        p@ == spec_route(req.method@, req.path@, req.payload@),
{
    let is_get = bytes_eq(req.method.as_slice(), get_method_vec().as_slice());
    let is_post = bytes_eq(req.method.as_slice(), post_method_vec().as_slice());
    if is_get && bytes_eq(req.path.as_slice(), root_path_vec().as_slice()) {
        Plan::Respond(Response { status: Status::Success, content_type: None, body: None })
    } else if is_get && bytes_eq(req.path.as_slice(), user_agent_path_vec().as_slice()) {
        match req.payload.get(user_agent_key_vec().as_slice()) {
            Some(value) => {
                let body = copy_bytes(value.as_slice());
                Plan::Respond(
                    Response {
                        status: Status::Success,
                        content_type: Some(text_plain_vec()),
                        body: Some(body),
                    },
                )
            },
            None => Plan::Abort(RequestError::MissingHeader),
        }
    } else if is_get && starts_with(req.path.as_slice(), echo_prefix_vec().as_slice()) {
        let prefix = echo_prefix_vec();
        let rest = copy_range(req.path.as_slice(), prefix.len(), req.path.len());
        proof {
            assert(req.path@.subrange(echo_prefix().len() as int, req.path@.len() as int)
                =~= req.path@.skip(echo_prefix().len() as int));
        }
        Plan::Respond(
            Response {
                status: Status::Success,
                content_type: Some(text_plain_vec()),
                body: Some(rest),
            },
        )
    } else if is_get && starts_with(req.path.as_slice(), files_prefix_vec().as_slice()) {
        let prefix = files_prefix_vec();
        let rest = copy_range(req.path.as_slice(), prefix.len(), req.path.len());
        proof {
            assert(req.path@.subrange(files_prefix().len() as int, req.path@.len() as int)
                =~= req.path@.skip(files_prefix().len() as int));
        }
        Plan::ReadFile(rest)
    } else if is_post && starts_with(req.path.as_slice(), files_prefix_vec().as_slice()) {
        match req.payload.get(post_payload_key_vec().as_slice()) {
            Some(value) => {
                let prefix = files_prefix_vec();
                let rest = copy_range(req.path.as_slice(), prefix.len(), req.path.len());
                proof {
                    assert(req.path@.subrange(files_prefix().len() as int, req.path@.len() as int)
                        =~= req.path@.skip(files_prefix().len() as int));
                }
                let data = copy_bytes(value.as_slice());
                Plan::WriteFile(rest, data)
            },
            None => Plan::Abort(RequestError::MissingBody),
        }
    } else {
        Plan::Respond(Response { status: Status::NotFound, content_type: None, body: None })
    }
}

/// The response to a file read: the contents as an octet stream on
/// success, the bare not-found response on any failure.
pub fn file_read_response(contents: Option<Vec<u8>>) -> (r: Response)
    ensures
        r@.wf(),
        contents matches Some(c) ==> r@ == (ResponseModel {
            status: Status::Success,
            content_type: Some(octet_stream()),
            body: Some(c@),
        }),
        contents is None ==> r@ == not_found_response(),
{
    match contents {
        Some(c) => Response {
            status: Status::Success,
            content_type: Some(octet_stream_vec()),
            body: Some(c),
        },
        None => Response { status: Status::NotFound, content_type: None, body: None },
    }
}

/// The response to a file write: a bare created response on success,
/// the bare not-found response on any failure.
pub fn file_write_response(ok: bool) -> (r: Response)
    ensures
        r@.wf(),
        ok ==> r@ == (ResponseModel {
            status: Status::Created,
            content_type: None,
            body: None,
        }),
        !ok ==> r@ == not_found_response(),
{
    if ok {
        Response { status: Status::Created, content_type: None, body: None }
    } else {
        Response { status: Status::NotFound, content_type: None, body: None }
    }
}

/// Each route reaches its own handler and no other: whatever the
/// request, the method and path alone pick the handler, in the table's
/// priority order, and every pattern's match draws exactly the outcome
/// its handler gives — down to the not-found response when nothing
/// matches.
pub proof fn lemma_routing_table(method: Seq<u8>, path: Seq<u8>, payload: Map<Seq<u8>, Seq<u8>>)
    ensures
        method == get_method() && path == root_path() ==> spec_route(method, path, payload)
            == PlanModel::Respond(root_response()),
        method == get_method() && path == user_agent_path() && payload.contains_key(
            user_agent_key(),
        ) ==> spec_route(method, path, payload) == PlanModel::Respond(
            text_response(payload[user_agent_key()]),
        ),
        method == get_method() && path == user_agent_path() && !payload.contains_key(
            user_agent_key(),
        ) ==> spec_route(method, path, payload) == PlanModel::Abort(RequestError::MissingHeader),
        method == get_method() && has_prefix(path, echo_prefix()) ==> spec_route(
            method,
            path,
            payload,
        ) == PlanModel::Respond(text_response(path.skip(echo_prefix().len() as int))),
        method == get_method() && has_prefix(path, files_prefix()) ==> spec_route(
            method,
            path,
            payload,
        ) == PlanModel::ReadFile(path.skip(files_prefix().len() as int)),
        method == post_method() && has_prefix(path, files_prefix()) && payload.contains_key(
            post_payload_key(),
        ) ==> spec_route(method, path, payload) == PlanModel::WriteFile(
            path.skip(files_prefix().len() as int),
            payload[post_payload_key()],
        ),
        method == post_method() && has_prefix(path, files_prefix()) && !payload.contains_key(
            post_payload_key(),
        ) ==> spec_route(method, path, payload) == PlanModel::Abort(RequestError::MissingBody),
        method != get_method() && method != post_method() ==> spec_route(method, path, payload)
            == PlanModel::Respond(not_found_response()),
        method == get_method() && path != root_path() && path != user_agent_path() && !has_prefix(
            path,
            echo_prefix(),
        ) && !has_prefix(path, files_prefix()) ==> spec_route(method, path, payload)
            == PlanModel::Respond(not_found_response()),
        method == post_method() && !has_prefix(path, files_prefix()) ==> spec_route(
            method,
            path,
            payload,
        ) == PlanModel::Respond(not_found_response()),
{
    assert(get_method() != post_method()) by {
        assert(get_method().len() == 3 && post_method().len() == 4);
    }
    if has_prefix(path, echo_prefix()) {
        assert(path[1] == echo_prefix()[1]) by {
            assert(path.subrange(0, echo_prefix().len() as int)[1] == path[1]);
        }
        assert(path != root_path() && path != user_agent_path());
        if has_prefix(path, files_prefix()) {
            assert(path.subrange(0, files_prefix().len() as int)[1] == path[1]);
            assert(false);
        }
    }
    if has_prefix(path, files_prefix()) {
        assert(path[1] == files_prefix()[1]) by {
            assert(path.subrange(0, files_prefix().len() as int)[1] == path[1]);
        }
        assert(path != root_path() && path != user_agent_path());
    }
}

/// What one request buffer plans to: its parse routed, or an abort where
/// the request line is malformed.
pub open spec fn spec_plan(buffer: Seq<u8>) -> PlanModel {
    if parse_ok(buffer) {
        spec_route(spec_method(buffer), spec_path(buffer), spec_payload(buffer))
    } else {
        PlanModel::Abort(RequestError::MalformedRequestLine)
    }
}

/// Parses one request buffer and routes it: the whole decision between
/// reading the bytes and acting on the plan.
pub fn plan_request(buffer: &[u8]) -> (p: Plan)
    ensures
        p@ == spec_plan(buffer@),
{
    match parse_request(buffer) {
        Ok(req) => route(&req),
        Err(e) => Plan::Abort(e),
    }
}

/// The response bytes a buffer draws when its plan needs no file store;
/// a file action or an abort has none.
pub open spec fn direct_response(buffer: Seq<u8>) -> Option<Seq<u8>> {
    match spec_plan(buffer) {
        PlanModel::Respond(r) => Some(spec_render(r)),
        _ => None,
    }
}

/// Identical request buffers always draw byte-identical responses:
/// planning and rendering are functions of the bytes read, so repeating
/// a request any number of times repeats its response exactly.
pub proof fn lemma_repeat_same_response(a: Seq<u8>, b: Seq<u8>)
    requires
        a == b,
    ensures
        spec_plan(a) == spec_plan(b),
        direct_response(a) == direct_response(b),
{
}

} // verus!
