//! The request parser: raw request bytes to method, path, headers and body,
//! with case-insensitive header lookup and `Accept-Encoding` negotiation.

use vstd::prelude::*;
use vstd::slice::{slice_subrange, slice_to_vec};
use vstd::string::StringSliceAdditionalSpecFns;
use crate::bytes::{
    bytes_eq, copy_range, eq_ignore_case, find_blank, find_blank_from, find_byte, find_byte_from,
    lower_bytes, seq_views, skip_ws, skip_ws_from, split_crlf, split_crlf_from, split_on_byte,
    split_on_byte_from, token_end, token_end_from, trim_bytes, trim_ws,
};

verus! {

/// One parsed header line: the bytes before the first colon, and the bytes
/// after it with surrounding whitespace removed.
pub struct HeaderPair {
    pub name: Vec<u8>,
    pub value: Vec<u8>,
}

/// The mathematical view of a header list: a sequence of (name, value) pairs.
pub open spec fn pairs_of(hs: Seq<HeaderPair>) -> Seq<(Seq<u8>, Seq<u8>)> {
    hs.map_values(|p: HeaderPair| (p.name@, p.value@))
}

/// The mathematical view of a parsed request.
pub struct ReqV {
    pub method: Seq<u8>,
    pub path: Seq<u8>,
    pub headers: Seq<(Seq<u8>, Seq<u8>)>,
    pub body: Seq<u8>,
}

/// A parsed request: immutable once built, owned by one connection's worker.
pub struct Request {
    pub method: Vec<u8>,
    pub path: Vec<u8>,
    pub headers: Vec<HeaderPair>,
    pub body: Vec<u8>,
}

impl View for Request {
    type V = ReqV;

    open spec fn view(&self) -> ReqV {
        ReqV {
            method: self.method@,
            path: self.path@,
            headers: pairs_of(self.headers@),
            body: self.body@,
        }
    }
}

/// Everything before the first blank line, or the whole buffer if there is none.
pub open spec fn head_of(raw: Seq<u8>) -> Seq<u8> {
    match find_blank_from(raw, 0) {
        Some(i) => raw.subrange(0, i),
        None => raw,
    }
}

/// Everything after the first blank line; empty if there is none.
pub open spec fn body_of(raw: Seq<u8>) -> Seq<u8> {
    match find_blank_from(raw, 0) {
        Some(i) => raw.subrange(i + 4, raw.len() as int),
        None => Seq::empty(),
    }
}

/// The (name, value) pairs of the header lines from index `k` on.
/// A line without a colon is skipped.
pub open spec fn headers_from(lines: Seq<Seq<u8>>, k: int) -> Seq<(Seq<u8>, Seq<u8>)>
    decreases lines.len() - k,
{
    if k < 0 || k >= lines.len() {
        Seq::empty()
    } else {
        let rest = headers_from(lines, k + 1);
        match find_byte_from(lines[k], 58, 0) {
            Some(i) => seq![
                (
                    lines[k].subrange(0, i),
                    trim_ws(lines[k].subrange(i + 1, lines[k].len() as int)),
                ),
            ] + rest,
            None => rest,
        }
    }
}

/// Case-insensitive lookup; on duplicate names the last value wins.
pub open spec fn header_lookup(hs: Seq<(Seq<u8>, Seq<u8>)>, name: Seq<u8>) -> Option<Seq<u8>>
    decreases hs.len(),
{
    if hs.len() == 0 {
        None
    } else if lower_bytes(hs.last().0) == lower_bytes(name) {
        Some(hs.last().1)
    } else {
        header_lookup(hs.drop_last(), name)
    }
}

/// What a raw buffer parses to: nothing when the request line has fewer
/// than two whitespace-separated tokens, the structured request otherwise.
pub open spec fn parse_request_spec(raw: Seq<u8>) -> Option<ReqV> {
    let head = head_of(raw);
    let lines = split_crlf_from(head, 0);
    let rl = lines[0];
    let m0 = skip_ws_from(rl, 0);
    if m0 >= rl.len() {
        None
    } else {
        let m1 = token_end_from(rl, m0);
        let p0 = skip_ws_from(rl, m1);
        if p0 >= rl.len() {
            None
        } else {
            let p1 = token_end_from(rl, p0);
            Some(
                ReqV {
                    method: rl.subrange(m0, m1),
                    path: rl.subrange(p0, p1),
                    headers: headers_from(lines, 1),
                    body: body_of(raw),
                },
            )
        }
    }
}

fn parse_headers(lines: &Vec<Vec<u8>>) -> (r: Vec<HeaderPair>)
    ensures
        pairs_of(r@) == headers_from(seq_views(lines@), 1),
{
    let ghost sv = seq_views(lines@);
    let mut hs: Vec<HeaderPair> = Vec::new();
    let mut k: usize = 1;
    proof {
        assert(pairs_of(hs@) =~= Seq::<(Seq<u8>, Seq<u8>)>::empty());
        if lines@.len() < 1 {
            assert(headers_from(sv, 1) =~= Seq::<(Seq<u8>, Seq<u8>)>::empty());
        }
    }
    while k < lines.len()
        invariant
            1 <= k,
            sv == seq_views(lines@),
            sv.len() == lines@.len(),
            headers_from(sv, 1) == pairs_of(hs@) + headers_from(sv, k as int),
        decreases lines@.len() - k,
    {
        let line: &Vec<u8> = &lines[k];
        let llen: usize = line.len();
        assert(line@ == sv[k as int]);
        match find_byte(line.as_slice(), 58, 0) {
            Some(i) => {
                let name = copy_range(line.as_slice(), 0, i);
                let value = trim_bytes(slice_subrange(line.as_slice(), i + 1, llen));
                let pair = HeaderPair { name, value };
                proof {
                    let cur = headers_from(sv, k as int);
                    assert(cur == seq![(pair.name@, pair.value@)] + headers_from(sv, k + 1));
                    assert(pairs_of(hs@.push(pair)) =~= pairs_of(hs@) + seq![
                        (pair.name@, pair.value@),
                    ]);
                    assert(pairs_of(hs@) + cur =~= pairs_of(hs@.push(pair)) + headers_from(
                        sv,
                        k + 1,
                    ));
                }
                hs.push(pair);
            },
            None => {
                assert(headers_from(sv, k as int) == headers_from(sv, k + 1));
            },
        }
        k += 1;
    }
    assert(headers_from(sv, k as int) =~= Seq::<(Seq<u8>, Seq<u8>)>::empty());
    assert(pairs_of(hs@) + headers_from(sv, k as int) =~= pairs_of(hs@));
    hs
}

/// The value of the last header whose name matches `name`, compared
/// case-insensitively; a fresh copy of it.
pub fn find_header(hs: &Vec<HeaderPair>, name: &[u8]) -> (r: Option<Vec<u8>>)
    ensures
        match r {
            Some(v) => header_lookup(pairs_of(hs@), name@) == Some(v@),
            None => header_lookup(pairs_of(hs@), name@) is None,
        },
{
    let mut i: usize = hs.len();
    proof {
        assert(pairs_of(hs@).subrange(0, hs@.len() as int) =~= pairs_of(hs@));
    }
    while i > 0
        invariant
            i <= hs@.len(),
            header_lookup(pairs_of(hs@), name@) == header_lookup(
                pairs_of(hs@).subrange(0, i as int),
                name@,
            ),
        decreases i,
    {
        i -= 1;
        let ghost pre = pairs_of(hs@).subrange(0, i as int + 1);
        assert(pre.last() == (hs@[i as int].name@, hs@[i as int].value@));
        if eq_ignore_case(hs[i].name.as_slice(), name) {
            return Some(slice_to_vec(hs[i].value.as_slice()));
        }
        assert(pre.drop_last() =~= pairs_of(hs@).subrange(0, i as int));
    }
    assert(pairs_of(hs@).subrange(0, 0).len() == 0);
    None
}

/// Whether any comma-separated entry from index `k` on is exactly `gzip`
/// once surrounding whitespace is removed.
pub open spec fn has_gzip_from(entries: Seq<Seq<u8>>, k: int) -> bool
    decreases entries.len() - k,
{
    if k < 0 || k >= entries.len() {
        false
    } else {
        trim_ws(entries[k]) == "gzip".spec_bytes() || has_gzip_from(entries, k + 1)
    }
}

/// Content negotiation: an `Accept-Encoding` value accepts gzip when some
/// comma-separated entry is the literal token `gzip`.
pub open spec fn accepts_gzip_val(v: Seq<u8>) -> bool {
    has_gzip_from(split_on_byte_from(v, 44, 0), 0)
}

pub fn accepts_gzip(v: &[u8]) -> (r: bool)
    ensures
        r == accepts_gzip_val(v@),
{
    let entries = split_on_byte(v, 44);
    let ghost sv = seq_views(entries@);
    let gz: &str = "gzip";
    let tok: &[u8] = gz.as_bytes();
    assert(tok@ == "gzip".spec_bytes());
    let mut k: usize = 0;
    while k < entries.len()
        invariant
            k <= entries@.len(),
            sv == seq_views(entries@),
            sv == split_on_byte_from(v@, 44, 0),
            sv.len() == entries@.len(),
            tok@ == "gzip".spec_bytes(),
            accepts_gzip_val(v@) == has_gzip_from(sv, k as int),
        decreases entries@.len() - k,
    {
        assert(entries@[k as int]@ == sv[k as int]);
        let t = trim_bytes(entries[k].as_slice());
        assert(t@ == trim_ws(sv[k as int]));
        if bytes_eq(t.as_slice(), tok) {
            assert(trim_ws(sv[k as int]) == "gzip".spec_bytes());
            assert(has_gzip_from(sv, k as int));
            return true;
        }
        assert(trim_ws(sv[k as int]) != "gzip".spec_bytes());
        assert(has_gzip_from(sv, k as int) == has_gzip_from(sv, k as int + 1));
        k += 1;
    }
    false
}

/// Parse a raw buffer into a request, or nothing when the request line is
/// malformed (fewer than two whitespace-separated tokens).
pub fn parse_request(raw: &[u8]) -> (r: Option<Request>)
    ensures
        match r {
            Some(req) => parse_request_spec(raw@) == Some(req@),
            None => parse_request_spec(raw@) is None,
        },
{
    let head: &[u8];
    let body: Vec<u8>;
    let rlen: usize = raw.len();
    match find_blank(raw, 0) {
        Some(i) => {
            head = slice_subrange(raw, 0, i);
            body = copy_range(raw, i + 4, rlen);
        },
        None => {
            head = raw;
            body = Vec::new();
        },
    }
    assert(head@ == head_of(raw@));
    assert(body@ == body_of(raw@));
    let lines = split_crlf(head);
    let ghost sv = seq_views(lines@);
    let rl: &Vec<u8> = &lines[0];
    assert(rl@ == sv[0]);
    let m0 = skip_ws(rl.as_slice(), 0);
    if m0 >= rl.len() {
        return None;
    }
    let m1 = token_end(rl.as_slice(), m0);
    let method = copy_range(rl.as_slice(), m0, m1);
    let p0 = skip_ws(rl.as_slice(), m1);
    if p0 >= rl.len() {
        return None;
    }
    let p1 = token_end(rl.as_slice(), p0);
    let path = copy_range(rl.as_slice(), p0, p1);
    let headers = parse_headers(&lines);
    let req = Request { method, path, headers, body };
    Some(req)
}

} // verus!
