//! The response encoder: status line, headers and body to wire bytes,
//! with gzip applied to the text routes when negotiated.

use vstd::prelude::*;
use vstd::string::StringSliceAdditionalSpecFns;
use crate::bytes::dec_val;
use crate::gzip::{gzip_compress, gzip_of};

verus! {

#[derive(Clone, Copy, PartialEq, Eq, Structural, Debug)]
pub enum Status {
    Ok200,
    Created201,
    BadRequest400,
    NotFound404,
    Error500,
}

#[derive(Clone, Copy, PartialEq, Eq, Structural, Debug)]
pub enum MediaType {
    TextPlain,
    OctetStream,
}

pub open spec fn status_code(s: Status) -> int {
    match s {
        Status::Ok200 => 200,
        Status::Created201 => 201,
        Status::BadRequest400 => 400,
        Status::NotFound404 => 404,
        Status::Error500 => 500,
    }
}

pub open spec fn status_line(s: Status) -> Seq<u8> {
    match s {
        Status::Ok200 => "HTTP/1.1 200 OK\r\n".spec_bytes(),
        Status::Created201 => "HTTP/1.1 201 Created\r\n".spec_bytes(),
        Status::BadRequest400 => "HTTP/1.1 400 Bad Request\r\n".spec_bytes(),
        Status::NotFound404 => "HTTP/1.1 404 Not Found\r\n".spec_bytes(),
        Status::Error500 => "HTTP/1.1 500 Internal Server Error\r\n".spec_bytes(),
    }
}

pub open spec fn media_bytes(m: MediaType) -> Seq<u8> {
    match m {
        MediaType::TextPlain => "text/plain".spec_bytes(),
        MediaType::OctetStream => "application/octet-stream".spec_bytes(),
    }
}

impl Status {
    pub fn code(&self) -> (c: u16)
        ensures
            c as int == status_code(*self),
    {
        match self {
            Status::Ok200 => 200,
            Status::Created201 => 201,
            Status::BadRequest400 => 400,
            Status::NotFound404 => 404,
            Status::Error500 => 500,
        }
    }
}

/// The mathematical view of a response.
pub struct RespV {
    pub status: Status,
    pub content_type: Option<MediaType>,
    pub gzip: bool,
    pub body: Seq<u8>,
}

/// A response: status, the content type when one is emitted, whether the
/// body is gzip-compressed, and the body bytes. Built once, encoded once.
pub struct Response {
    pub status: Status,
    pub content_type: Option<MediaType>,
    pub gzip: bool,
    pub body: Vec<u8>,
}

impl View for Response {
    type V = RespV;

    open spec fn view(&self) -> RespV {
        RespV {
            status: self.status,
            content_type: self.content_type,
            gzip: self.gzip,
            body: self.body@,
        }
    }
}

/// The decimal digits of `n`, most significant first.
pub open spec fn dec_bytes(n: nat) -> Seq<u8>
    decreases n,
{
    if n < 10 {
        seq![(48 + n) as u8]
    } else {
        dec_bytes(n / 10) + seq![(48 + n % 10) as u8]
    }
}

/// The digits the encoder writes after `Content-Length: ` denote exactly
/// the number they were made from: they are decimal digits and parse back
/// to it.
pub proof fn lemma_dec_bytes_value(n: nat)
    ensures
        dec_val(dec_bytes(n)) == n,
        crate::bytes::all_digits(dec_bytes(n)),
        dec_bytes(n).len() >= 1,
    decreases n,
{
    if n < 10 {
        let d = dec_bytes(n);
        assert(d =~= seq![(48 + n) as u8]);
        assert(d.drop_last() =~= Seq::<u8>::empty());
        assert(dec_val(d) == dec_val(d.drop_last()) * 10 + (d[0] - 48) as nat);
    } else {
        lemma_dec_bytes_value(n / 10);
        let p = dec_bytes(n / 10);
        let d = dec_bytes(n);
        assert(d == p + seq![(48 + n % 10) as u8]);
        assert(d.drop_last() =~= p);
        assert(d[d.len() - 1] == (48 + n % 10) as u8);
        assert(dec_val(d) == dec_val(p) * 10 + ((48 + n % 10) as u8 - 48) as nat);
        vstd::arithmetic::div_mod::lemma_fundamental_div_mod(n as int, 10);
        assert forall|i: int| 0 <= i < d.len() implies crate::bytes::is_digit(#[trigger] d[i]) by {
            if i < p.len() {
                assert(d[i] == p[i]);
            }
        }
    }
}

/// The header block: nothing without a content type; with one, the
/// `Content-Type`, then `Content-Encoding: gzip` when negotiated, then the
/// `Content-Length` of the body as sent.
pub open spec fn header_block(r: RespV) -> Seq<u8> {
    match r.content_type {
        None => Seq::empty(),
        Some(m) => "Content-Type: ".spec_bytes() + media_bytes(m) + "\r\n".spec_bytes() + (
        if r.gzip {
            "Content-Encoding: gzip\r\n".spec_bytes()
        } else {
            Seq::empty()
        }) + "Content-Length: ".spec_bytes() + dec_bytes(r.body.len()) + "\r\n".spec_bytes(),
    }
}

/// The full wire form: status line, header block, blank line, body.
pub open spec fn encode_spec(r: RespV) -> Seq<u8> {
    status_line(r.status) + header_block(r) + "\r\n".spec_bytes() + r.body
}

pub open spec fn empty_resp(s: Status) -> RespV {
    RespV { status: s, content_type: None, gzip: false, body: Seq::empty() }
}

/// What the text routes answer: a 200 with `text/plain`, the body
/// gzip-compressed exactly when negotiation accepted gzip.
pub open spec fn text_resp_spec(body: Seq<u8>, gz: bool) -> RespV {
    RespV {
        status: Status::Ok200,
        content_type: Some(MediaType::TextPlain),
        gzip: gz,
        body: if gz {
            gzip_of(body)
        } else {
            body
        },
    }
}

/// The mathematical view of a file read's outcome.
pub enum ReadOutcomeV {
    Found(Seq<u8>),
    Missing,
    Fault,
}

/// How a file read ended: the bytes, no file under that name, or a
/// storage fault (permission denied, an I/O error) — the last two are kept
/// apart so that only a missing file is answered not-found.
pub enum ReadOutcome {
    Found(Vec<u8>),
    Missing,
    Fault,
}

impl View for ReadOutcome {
    type V = ReadOutcomeV;

    open spec fn view(&self) -> ReadOutcomeV {
        match self {
            ReadOutcome::Found(b) => ReadOutcomeV::Found(b@),
            ReadOutcome::Missing => ReadOutcomeV::Missing,
            ReadOutcome::Fault => ReadOutcomeV::Fault,
        }
    }
}

/// What a file read answers: the bytes as `application/octet-stream`,
/// never compressed; an empty 404 only when the file is missing; an empty
/// 500 on a storage fault.
pub open spec fn file_read_spec(outcome: ReadOutcomeV) -> RespV {
    match outcome {
        ReadOutcomeV::Found(b) => RespV {
            status: Status::Ok200,
            content_type: Some(MediaType::OctetStream),
            gzip: false,
            body: b,
        },
        ReadOutcomeV::Missing => empty_resp(Status::NotFound404),
        ReadOutcomeV::Fault => empty_resp(Status::Error500),
    }
}

/// What a file write answers: an empty 201 on success, an empty 500 on a
/// storage fault.
pub open spec fn file_write_spec(ok: bool) -> RespV {
    if ok {
        empty_resp(Status::Created201)
    } else {
        empty_resp(Status::Error500)
    }
}

fn push_bytes(out: &mut Vec<u8>, s: &[u8])
    ensures
        final(out)@ == old(out)@ + s@,
{
    let mut i: usize = 0;
    while i < s.len()
        invariant
            i <= s@.len(),
            out@ == old(out)@ + s@.subrange(0, i as int),
        decreases s@.len() - i,
    {
        let b = s[i];
        assert(s@.subrange(0, i as int + 1) =~= s@.subrange(0, i as int).push(b));
        assert((old(out)@ + s@.subrange(0, i as int)).push(b) =~= old(out)@ + s@.subrange(
            0,
            i as int + 1,
        ));
        out.push(b);
        i += 1;
    }
    assert(s@.subrange(0, s@.len() as int) =~= s@);
}

fn push_lit(out: &mut Vec<u8>, s: &str)
    ensures
        final(out)@ == old(out)@ + s.spec_bytes(),
{
    push_bytes(out, s.as_bytes());
}

/// The decimal digits of `n`, most significant first.
pub fn dec_digits(n: usize) -> (v: Vec<u8>)
    ensures
        v@ == dec_bytes(n as nat),
    decreases n,
{
    if n < 10 {
        let mut v: Vec<u8> = Vec::new();
        v.push(48 + (n as u8));
        assert(v@ =~= seq![(48 + n) as u8]);
        v
    } else {
        let mut v = dec_digits(n / 10);
        v.push(48 + ((n % 10) as u8));
        assert(v@ =~= dec_bytes((n / 10) as nat) + seq![(48 + (n as nat) % 10) as u8]);
        v
    }
}

/// Encode a response into its wire bytes.
#[verifier::rlimit(60)]
pub fn encode_response(resp: &Response) -> (out: Vec<u8>)
    ensures
        out@ == encode_spec(resp@),
{
    let mut out: Vec<u8> = Vec::new();
    match resp.status {
        Status::Ok200 => push_lit(&mut out, "HTTP/1.1 200 OK\r\n"),
        Status::Created201 => push_lit(&mut out, "HTTP/1.1 201 Created\r\n"),
        Status::BadRequest400 => push_lit(&mut out, "HTTP/1.1 400 Bad Request\r\n"),
        Status::NotFound404 => push_lit(&mut out, "HTTP/1.1 404 Not Found\r\n"),
        Status::Error500 => push_lit(&mut out, "HTTP/1.1 500 Internal Server Error\r\n"),
    }
    assert(out@ == status_line(resp@.status));
    match resp.content_type {
        None => {
            assert(out@ =~= status_line(resp@.status) + header_block(resp@));
        },
        Some(m) => {
            push_lit(&mut out, "Content-Type: ");
            match m {
                MediaType::TextPlain => push_lit(&mut out, "text/plain"),
                MediaType::OctetStream => push_lit(&mut out, "application/octet-stream"),
            }
            push_lit(&mut out, "\r\n");
            if resp.gzip {
                push_lit(&mut out, "Content-Encoding: gzip\r\n");
            }
            push_lit(&mut out, "Content-Length: ");
            let digits = dec_digits(resp.body.len());
            push_bytes(&mut out, digits.as_slice());
            push_lit(&mut out, "\r\n");
            assert(out@ =~= status_line(resp@.status) + header_block(resp@));
        },
    }
    push_lit(&mut out, "\r\n");
    push_bytes(&mut out, resp.body.as_slice());
    assert(out@ =~= encode_spec(resp@));
    out
}

pub fn empty_response(s: Status) -> (r: Response)
    ensures
        r@ == empty_resp(s),
{
    let r = Response { status: s, content_type: None, gzip: false, body: Vec::new() };
    assert(r@.body =~= Seq::<u8>::empty());
    r
}

/// Build the text-route response, compressing the body when `gz` holds.
/// A compressed body starts with the gzip magic bytes.
pub fn text_response(body: &[u8], gz: bool) -> (r: Response)
    ensures
        r@ == text_resp_spec(body@, gz),
        gz ==> r@.body.len() >= 2 && r@.body[0] == 0x1f && r@.body[1] == 0x8b,
{
    if gz {
        let compressed = gzip_compress(body);
        Response {
            status: Status::Ok200,
            content_type: Some(MediaType::TextPlain),
            gzip: true,
            body: compressed,
        }
    } else {
        let copy = vstd::slice::slice_to_vec(body);
        Response {
            status: Status::Ok200,
            content_type: Some(MediaType::TextPlain),
            gzip: false,
            body: copy,
        }
    }
}

/// The full wire bytes of a text-route response.
pub fn generate_text_response(body: &[u8], gz: bool) -> (out: Vec<u8>)
    ensures
        out@ == encode_spec(text_resp_spec(body@, gz)),
{
    let r = text_response(body, gz);
    encode_response(&r)
}

/// The full wire bytes of the empty not-found response.
pub fn generate_not_found_response() -> (out: Vec<u8>)
    ensures
        out@ == encode_spec(empty_resp(Status::NotFound404)),
{
    let r = empty_response(Status::NotFound404);
    encode_response(&r)
}

/// Turn the outcome of a file read into the response.
pub fn file_read_response(outcome: ReadOutcome) -> (r: Response)
    ensures
        r@ == file_read_spec(outcome@),
{
    match outcome {
        ReadOutcome::Found(b) => Response {
            status: Status::Ok200,
            content_type: Some(MediaType::OctetStream),
            gzip: false,
            body: b,
        },
        ReadOutcome::Missing => empty_response(Status::NotFound404),
        ReadOutcome::Fault => empty_response(Status::Error500),
    }
}

/// Turn the outcome of a file write into the response.
pub fn file_write_response(ok: bool) -> (r: Response)
    ensures
        r@ == file_write_spec(ok),
{
    if ok {
        empty_response(Status::Created201)
    } else {
        empty_response(Status::Error500)
    }
}

} // verus!
