//! The router and handler: a parsed request to either a finished response
//! or the file-store operation the surrounding program must perform.

use vstd::prelude::*;
use vstd::string::StringSliceAdditionalSpecFns;
use crate::bytes::{
    bytes_eq, copy_range, has_prefix, parse_dec, seq_views, spec_parse_dec, split_on_byte,
    split_on_byte_from, starts_with_bytes,
};
use crate::request::{
    accepts_gzip, accepts_gzip_val, find_header, header_lookup, parse_request, parse_request_spec,
    ReqV,
};
use crate::response::{
    empty_resp, empty_response, file_read_spec, text_resp_spec, text_response, MediaType,
    ReadOutcomeV, RespV, Response, Status,
};

verus! {

/// Which route a (method, path) pair selects, with the captured remainder.
pub enum Route {
    Root,
    UserAgent,
    Echo(Seq<u8>),
    FileGet(Seq<u8>),
    FilePost(Seq<u8>),
    NotFound,
}

/// Path dispatch: exact `/` and `/user-agent`, prefix `/echo/` and
/// `/files/`; the method matters only on the file route, anything but GET
/// or POST there falls through to not-found.
pub open spec fn route_of(method: Seq<u8>, path: Seq<u8>) -> Route {
    if path == "/".spec_bytes() {
        Route::Root
    } else if path == "/user-agent".spec_bytes() {
        Route::UserAgent
    } else if has_prefix(path, "/echo/".spec_bytes()) {
        Route::Echo(path.skip("/echo/".spec_bytes().len() as int))
    } else if has_prefix(path, "/files/".spec_bytes()) {
        if method == "GET".spec_bytes() {
            Route::FileGet(path.skip("/files/".spec_bytes().len() as int))
        } else if method == "POST".spec_bytes() {
            Route::FilePost(path.skip("/files/".spec_bytes().len() as int))
        } else {
            Route::NotFound
        }
    } else {
        Route::NotFound
    }
}

/// Whether the request's `Accept-Encoding` header accepts gzip.
pub open spec fn gzip_negotiated(req: ReqV) -> bool {
    match header_lookup(req.headers, "accept-encoding".spec_bytes()) {
        Some(v) => accepts_gzip_val(v),
        None => false,
    }
}

/// Whether any slash-separated segment of the name from index `k` on is
/// exactly `..`.
pub open spec fn has_dotdot_from(segments: Seq<Seq<u8>>, k: int) -> bool
    decreases segments.len() - k,
{
    if k < 0 || k >= segments.len() {
        false
    } else {
        segments[k] == "..".spec_bytes() || has_dotdot_from(segments, k + 1)
    }
}

/// Root containment: a file name escapes the storage root when one of its
/// slash-separated segments is `..`.
pub open spec fn name_escapes(name: Seq<u8>) -> bool {
    has_dotdot_from(split_on_byte_from(name, 47, 0), 0)
}

/// Whether a file name would escape the storage root.
pub fn name_escapes_root(name: &[u8]) -> (r: bool)
    ensures
        r == name_escapes(name@),
{
    let segments = split_on_byte(name, 47);
    let ghost sv = seq_views(segments@);
    let dotdot: &str = "..";
    let tok: &[u8] = dotdot.as_bytes();
    assert(tok@ == "..".spec_bytes());
    let mut k: usize = 0;
    while k < segments.len()
        invariant
            k <= segments@.len(),
            sv == seq_views(segments@),
            sv == split_on_byte_from(name@, 47, 0),
            sv.len() == segments@.len(),
            tok@ == "..".spec_bytes(),
            name_escapes(name@) == has_dotdot_from(sv, k as int),
        decreases segments@.len() - k,
    {
        assert(segments@[k as int]@ == sv[k as int]);
        if bytes_eq(segments[k].as_slice(), tok) {
            assert(has_dotdot_from(sv, k as int));
            return true;
        }
        assert(has_dotdot_from(sv, k as int) == has_dotdot_from(sv, k as int + 1));
        k += 1;
    }
    false
}

/// The mathematical view of what the handler decides.
pub enum ActionV {
    Respond(RespV),
    ReadFile(Seq<u8>),
    WriteFile(Seq<u8>, Seq<u8>),
}

/// What the handler decides: a finished response, or the file operation
/// the caller must perform before a second call finishes the response.
pub enum Action {
    Respond(Response),
    ReadFile(Vec<u8>),
    WriteFile(Vec<u8>, Vec<u8>),
}

impl View for Action {
    type V = ActionV;

    open spec fn view(&self) -> ActionV {
        match self {
            Action::Respond(r) => ActionV::Respond(r@),
            Action::ReadFile(n) => ActionV::ReadFile(n@),
            Action::WriteFile(n, b) => ActionV::WriteFile(n@, b@),
        }
    }
}

/// What a raw buffer is answered with. A malformed request line, a missing
/// `User-Agent` on its route, and a missing, unparsable or underfilled
/// `Content-Length` on a file write are all answered with an empty 400;
/// an unrouted path, and a file name that would escape the storage root,
/// with an empty 404. A file write stores the body truncated to the
/// declared length.
pub open spec fn handle_spec(raw: Seq<u8>) -> ActionV {
    match parse_request_spec(raw) {
        None => ActionV::Respond(empty_resp(Status::BadRequest400)),
        Some(req) => {
            let gz = gzip_negotiated(req);
            match route_of(req.method, req.path) {
                Route::Root => ActionV::Respond(empty_resp(Status::Ok200)),
                Route::UserAgent => match header_lookup(req.headers, "user-agent".spec_bytes()) {
                    Some(v) => ActionV::Respond(text_resp_spec(v, gz)),
                    None => ActionV::Respond(empty_resp(Status::BadRequest400)),
                },
                Route::Echo(s) => ActionV::Respond(text_resp_spec(s, gz)),
                Route::FileGet(name) => if name_escapes(name) {
                    ActionV::Respond(empty_resp(Status::NotFound404))
                } else {
                    ActionV::ReadFile(name)
                },
                Route::FilePost(name) => if name_escapes(name) {
                    ActionV::Respond(empty_resp(Status::NotFound404))
                } else {
                    match header_lookup(req.headers, "content-length".spec_bytes()) {
                        None => ActionV::Respond(empty_resp(Status::BadRequest400)),
                        Some(v) => match spec_parse_dec(v) {
                            None => ActionV::Respond(empty_resp(Status::BadRequest400)),
                            Some(n) => if req.body.len() < n {
                                ActionV::Respond(empty_resp(Status::BadRequest400))
                            } else {
                                ActionV::WriteFile(name, req.body.take(n))
                            },
                        },
                    }
                },
                Route::NotFound => ActionV::Respond(empty_resp(Status::NotFound404)),
            }
        },
    }
}

/// A parsed request whose path matches no defined route is answered with a
/// 404 and an empty body, whatever else the request holds.
pub proof fn lemma_unrouted_path_gets_not_found(raw: Seq<u8>)
    requires
        parse_request_spec(raw) is Some,
        ({
            let req = parse_request_spec(raw)->Some_0;
            &&& req.path != "/".spec_bytes()
            &&& req.path != "/user-agent".spec_bytes()
            &&& !has_prefix(req.path, "/echo/".spec_bytes())
            &&& !has_prefix(req.path, "/files/".spec_bytes())
        }),
    ensures
        handle_spec(raw) == ActionV::Respond(empty_resp(Status::NotFound404)),
        empty_resp(Status::NotFound404).body.len() == 0,
{
}

/// A request for `/` is answered 200 with an empty body and no content
/// type, whatever its method and headers.
pub proof fn lemma_root_gets_ok(raw: Seq<u8>)
    requires
        parse_request_spec(raw) is Some,
        parse_request_spec(raw)->Some_0.path == "/".spec_bytes(),
    ensures
        handle_spec(raw) == ActionV::Respond(empty_resp(Status::Ok200)),
        empty_resp(Status::Ok200).content_type is None,
        empty_resp(Status::Ok200).body.len() == 0,
{
}

proof fn lemma_echo_path_routes(method: Seq<u8>, s: Seq<u8>)
    ensures
        route_of(method, "/echo/".spec_bytes() + s) == Route::Echo(s),
{
    broadcast use vstd::string::is_ascii_spec_bytes;

    reveal_strlit("/");
    reveal_strlit("/user-agent");
    reveal_strlit("/echo/");
    assert(vstd::string::is_ascii("/echo/"));
    assert(vstd::string::is_ascii("/"));
    assert(vstd::string::is_ascii("/user-agent"));
    let pref = "/echo/".spec_bytes();
    let path = pref + s;
    assert(pref.len() == 6);
    assert("/".spec_bytes().len() == 1);
    assert(path != "/".spec_bytes());
    assert("/user-agent".spec_bytes().len() == 11);
    assert(pref[1] == 101);
    assert(path[1] == 101);
    assert("/user-agent".spec_bytes()[1] == 117);
    assert(path != "/user-agent".spec_bytes());
    assert(path.subrange(0, 6) =~= pref);
    assert(has_prefix(path, pref));
    assert(path.skip(6) =~= s);
}

/// A request for `/echo/` followed by any remainder `s` is answered 200
/// `text/plain`; the body is `s` itself, or its gzip encoding exactly when
/// the request's `Accept-Encoding` accepted gzip.
pub proof fn lemma_echo_response(raw: Seq<u8>, s: Seq<u8>)
    requires
        parse_request_spec(raw) is Some,
        parse_request_spec(raw)->Some_0.path == "/echo/".spec_bytes() + s,
    ensures
        ({
            let req = parse_request_spec(raw)->Some_0;
            let gz = gzip_negotiated(req);
            &&& handle_spec(raw) == ActionV::Respond(text_resp_spec(s, gz))
            &&& text_resp_spec(s, gz).status == Status::Ok200
            &&& text_resp_spec(s, gz).content_type == Some(MediaType::TextPlain)
            &&& text_resp_spec(s, gz).body == (if gz {
                crate::gzip::gzip_of(s)
            } else {
                s
            })
        }),
{
    let req = parse_request_spec(raw)->Some_0;
    lemma_echo_path_routes(req.method, s);
}

/// The file routes round-trip: a POST under `/files/` with a contained
/// name asks the store to write exactly the request body truncated to the
/// declared length, and a later read that yields those bytes is answered
/// 200 `application/octet-stream` with that body, while a read that finds
/// no file is answered with an empty 404 and a storage fault with an
/// empty 500.
pub proof fn lemma_files_round_trip(raw: Seq<u8>, name: Seq<u8>, contents: Seq<u8>)
    requires
        parse_request_spec(raw) is Some,
        !name_escapes(name),
        ({
            let req = parse_request_spec(raw)->Some_0;
            let cl = header_lookup(req.headers, "content-length".spec_bytes());
            &&& route_of(req.method, req.path) == Route::FilePost(name)
            &&& cl is Some
            &&& spec_parse_dec(cl->Some_0) == Some(contents.len() as int)
            &&& contents.len() <= req.body.len()
            &&& req.body.take(contents.len() as int) == contents
        }),
    ensures
        handle_spec(raw) == ActionV::WriteFile(name, contents),
        file_read_spec(ReadOutcomeV::Found(contents)) == (RespV {
            status: Status::Ok200,
            content_type: Some(MediaType::OctetStream),
            gzip: false,
            body: contents,
        }),
        file_read_spec(ReadOutcomeV::Missing) == empty_resp(Status::NotFound404),
        file_read_spec(ReadOutcomeV::Fault) == empty_resp(Status::Error500),
{
}

/// Root containment: a file route whose name holds a `..` segment is
/// answered with an empty 404, and no file operation is emitted for it.
pub proof fn lemma_escaping_name_refused(raw: Seq<u8>, name: Seq<u8>)
    requires
        parse_request_spec(raw) is Some,
        ({
            let req = parse_request_spec(raw)->Some_0;
            route_of(req.method, req.path) == Route::FileGet(name) || route_of(
                req.method,
                req.path,
            ) == Route::FilePost(name)
        }),
        name_escapes(name),
    ensures
        handle_spec(raw) == ActionV::Respond(empty_resp(Status::NotFound404)),
{
}

/// Handle one raw request buffer.
#[verifier::rlimit(60)]
pub fn handle_request(raw: &[u8]) -> (a: Action)
    ensures
        a@ == handle_spec(raw@),
{
    let req = match parse_request(raw) {
        None => {
            return Action::Respond(empty_response(Status::BadRequest400));
        },
        Some(r) => r,
    };
    let accept_encoding: &str = "accept-encoding";
    let gz: bool = match find_header(&req.headers, accept_encoding.as_bytes()) {
        Some(v) => accepts_gzip(v.as_slice()),
        None => false,
    };
    assert(gz == gzip_negotiated(req@));
    let root: &str = "/";
    let user_agent_path: &str = "/user-agent";
    let echo_prefix: &str = "/echo/";
    let files_prefix: &str = "/files/";
    let path = req.path.as_slice();
    let plen: usize = req.path.len();
    if bytes_eq(path, root.as_bytes()) {
        Action::Respond(empty_response(Status::Ok200))
    } else if bytes_eq(path, user_agent_path.as_bytes()) {
        let user_agent: &str = "user-agent";
        match find_header(&req.headers, user_agent.as_bytes()) {
            Some(v) => Action::Respond(text_response(v.as_slice(), gz)),
            None => Action::Respond(empty_response(Status::BadRequest400)),
        }
    } else if starts_with_bytes(path, echo_prefix.as_bytes()) {
        let pref = echo_prefix.as_bytes();
        let rem = copy_range(path, pref.len(), plen);
        assert(rem@ =~= req.path@.skip("/echo/".spec_bytes().len() as int));
        Action::Respond(text_response(rem.as_slice(), gz))
    } else if starts_with_bytes(path, files_prefix.as_bytes()) {
        let pref = files_prefix.as_bytes();
        let name = copy_range(path, pref.len(), plen);
        assert(name@ =~= req.path@.skip("/files/".spec_bytes().len() as int));
        let get_method: &str = "GET";
        let post_method: &str = "POST";
        let escapes = name_escapes_root(name.as_slice());
        if bytes_eq(req.method.as_slice(), get_method.as_bytes()) {
            if escapes {
                Action::Respond(empty_response(Status::NotFound404))
            } else {
                Action::ReadFile(name)
            }
        } else if bytes_eq(req.method.as_slice(), post_method.as_bytes()) {
            if escapes {
                return Action::Respond(empty_response(Status::NotFound404));
            }
            let content_length: &str = "content-length";
            match find_header(&req.headers, content_length.as_bytes()) {
                None => Action::Respond(empty_response(Status::BadRequest400)),
                Some(v) => {
                    match parse_dec(v.as_slice()) {
                        None => Action::Respond(empty_response(Status::BadRequest400)),
                        Some(n) => {
                            if req.body.len() < n {
                                Action::Respond(empty_response(Status::BadRequest400))
                            } else {
                                let stored = copy_range(req.body.as_slice(), 0, n);
                                assert(stored@ =~= req.body@.take(n as int));
                                Action::WriteFile(name, stored)
                            }
                        },
                    }
                },
            }
        } else {
            Action::Respond(empty_response(Status::NotFound404))
        }
    } else {
        Action::Respond(empty_response(Status::NotFound404))
    }
}

} // verus!
