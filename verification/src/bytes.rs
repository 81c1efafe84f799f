//! Verified byte-sequence utilities: searching, splitting, trimming,
//! case folding and decimal parsing, used by the request parser and the
//! response encoder.

use vstd::prelude::*;
use vstd::slice::{slice_subrange, slice_to_vec};

verus! {

/// The whitespace bytes recognized inside a request line or header value.
pub open spec fn is_ws(b: u8) -> bool {
    b == 32 || b == 9
}

pub open spec fn is_digit(b: u8) -> bool {
    48 <= b && b <= 57
}

/// ASCII lower-casing of a single byte.
pub open spec fn lower_byte(b: u8) -> u8 {
    if 65 <= b && b <= 90 {
        (b + 32) as u8
    } else {
        b
    }
}

/// ASCII lower-casing of a whole sequence, for case-insensitive names.
pub open spec fn lower_bytes(s: Seq<u8>) -> Seq<u8> {
    s.map_values(|b: u8| lower_byte(b))
}

/// The views of a sequence of byte vectors.
pub open spec fn seq_views(v: Seq<Vec<u8>>) -> Seq<Seq<u8>> {
    v.map_values(|x: Vec<u8>| x@)
}

pub open spec fn has_prefix(s: Seq<u8>, p: Seq<u8>) -> bool {
    p.len() <= s.len() && s.subrange(0, p.len() as int) == p
}

/// Index of the first occurrence of `t` at or after `from`, if any.
pub open spec fn find_byte_from(s: Seq<u8>, t: u8, from: int) -> Option<int>
    decreases s.len() - from,
{
    if from < 0 || from >= s.len() {
        None
    } else if s[from] == t {
        Some(from)
    } else {
        find_byte_from(s, t, from + 1)
    }
}

pub proof fn lemma_find_byte_bounds(s: Seq<u8>, t: u8, from: int)
    ensures
        match find_byte_from(s, t, from) {
            Some(i) => from <= i < s.len() && s[i] == t,
            None => true,
        },
    decreases s.len() - from,
{
    if 0 <= from < s.len() && s[from] != t {
        lemma_find_byte_bounds(s, t, from + 1);
    }
}

/// Index of the first CRLF at or after `from`, if any.
pub open spec fn find_crlf_from(s: Seq<u8>, from: int) -> Option<int>
    decreases s.len() - from,
{
    if from < 0 || from + 2 > s.len() {
        None
    } else if s[from] == 13 && s[from + 1] == 10 {
        Some(from)
    } else {
        find_crlf_from(s, from + 1)
    }
}

pub proof fn lemma_find_crlf_bounds(s: Seq<u8>, from: int)
    ensures
        match find_crlf_from(s, from) {
            Some(i) => from <= i && i + 2 <= s.len() && s[i] == 13 && s[i + 1] == 10,
            None => true,
        },
    decreases s.len() - from,
{
    if 0 <= from && from + 2 <= s.len() && !(s[from] == 13 && s[from + 1] == 10) {
        lemma_find_crlf_bounds(s, from + 1);
    }
}

/// Index of the first blank line (CRLF CRLF) at or after `from`, if any.
pub open spec fn find_blank_from(s: Seq<u8>, from: int) -> Option<int>
    decreases s.len() - from,
{
    if from < 0 || from + 4 > s.len() {
        None
    } else if s[from] == 13 && s[from + 1] == 10 && s[from + 2] == 13 && s[from + 3] == 10 {
        Some(from)
    } else {
        find_blank_from(s, from + 1)
    }
}

/// The fields split on CRLF, starting at `from`; always at least one part.
pub open spec fn split_crlf_from(s: Seq<u8>, from: int) -> Seq<Seq<u8>>
    decreases s.len() - from,
    via split_crlf_from_decreases
{
    if from < 0 || from > s.len() {
        Seq::empty()
    } else {
        match find_crlf_from(s, from) {
            Some(i) => seq![s.subrange(from, i)] + split_crlf_from(s, i + 2),
            None => seq![s.subrange(from, s.len() as int)],
        }
    }
}

#[via_fn]
proof fn split_crlf_from_decreases(s: Seq<u8>, from: int) {
    if 0 <= from <= s.len() {
        lemma_find_crlf_bounds(s, from);
    }
}

/// The fields split on the byte `sep`, starting at `from`.
pub open spec fn split_on_byte_from(s: Seq<u8>, sep: u8, from: int) -> Seq<Seq<u8>>
    decreases s.len() - from,
    via split_on_byte_from_decreases
{
    if from < 0 || from > s.len() {
        Seq::empty()
    } else {
        match find_byte_from(s, sep, from) {
            Some(i) => seq![s.subrange(from, i)] + split_on_byte_from(s, sep, i + 1),
            None => seq![s.subrange(from, s.len() as int)],
        }
    }
}

#[via_fn]
proof fn split_on_byte_from_decreases(s: Seq<u8>, sep: u8, from: int) {
    if 0 <= from <= s.len() {
        lemma_find_byte_bounds(s, sep, from);
    }
}

/// First index at or after `from` holding a non-whitespace byte, or the length.
pub open spec fn skip_ws_from(s: Seq<u8>, from: int) -> int
    decreases s.len() - from,
{
    if from < 0 || from >= s.len() {
        s.len() as int
    } else if is_ws(s[from]) {
        skip_ws_from(s, from + 1)
    } else {
        from
    }
}

/// First index at or after `from` holding a whitespace byte, or the length.
pub open spec fn token_end_from(s: Seq<u8>, from: int) -> int
    decreases s.len() - from,
{
    if from < 0 || from >= s.len() {
        s.len() as int
    } else if is_ws(s[from]) {
        from
    } else {
        token_end_from(s, from + 1)
    }
}

pub open spec fn drop_leading_ws(s: Seq<u8>) -> Seq<u8>
    decreases s.len(),
{
    if s.len() > 0 && is_ws(s[0]) {
        drop_leading_ws(s.drop_first())
    } else {
        s
    }
}

pub open spec fn drop_trailing_ws(s: Seq<u8>) -> Seq<u8>
    decreases s.len(),
{
    if s.len() > 0 && is_ws(s[s.len() - 1]) {
        drop_trailing_ws(s.drop_last())
    } else {
        s
    }
}

/// The sequence with leading and trailing whitespace removed.
pub open spec fn trim_ws(s: Seq<u8>) -> Seq<u8> {
    drop_trailing_ws(drop_leading_ws(s))
}

/// The value of a sequence of decimal digit bytes, most significant first.
pub open spec fn dec_val(s: Seq<u8>) -> nat
    decreases s.len(),
{
    if s.len() == 0 {
        0
    } else {
        dec_val(s.drop_last()) * 10 + (s[s.len() - 1] - 48) as nat
    }
}

pub open spec fn all_digits(s: Seq<u8>) -> bool {
    forall|i: int| 0 <= i < s.len() ==> is_digit(#[trigger] s[i])
}

/// What decimal parsing yields: the digits' value when the sequence is a
/// non-empty run of digits whose value fits in `usize`, nothing otherwise.
pub open spec fn spec_parse_dec(s: Seq<u8>) -> Option<int> {
    if s.len() > 0 && all_digits(s) && dec_val(s) <= usize::MAX {
        Some(dec_val(s) as int)
    } else {
        None
    }
}

pub proof fn lemma_dec_val_prefix_le(s: Seq<u8>, i: int, j: int)
    requires
        0 <= i <= j <= s.len(),
        all_digits(s),
    ensures
        dec_val(s.subrange(0, i)) <= dec_val(s.subrange(0, j)),
    decreases j - i,
{
    if i < j {
        lemma_dec_val_prefix_le(s, i, j - 1);
        assert(s.subrange(0, j).drop_last() =~= s.subrange(0, j - 1));
        assert(is_digit(s[j - 1]));
        assert(dec_val(s.subrange(0, j)) == dec_val(s.subrange(0, j - 1)) * 10 + (s[j - 1]
            - 48) as nat);
    }
}

pub fn bytes_eq(a: &[u8], b: &[u8]) -> (r: bool)
    ensures
        r == (a@ == b@),
{
    if a.len() != b.len() {
        assert(a@ != b@) by {
            assert(a@.len() != b@.len());
        }
        return false;
    }
    let mut i: usize = 0;
    while i < a.len()
        invariant
            i <= a@.len(),
            a@.len() == b@.len(),
            forall|k: int| 0 <= k < i ==> a@[k] == b@[k],
        decreases a@.len() - i,
    {
        if a[i] != b[i] {
            return false;
        }
        i += 1;
    }
    assert(a@ =~= b@);
    true
}

fn lower_byte_x(b: u8) -> (r: u8)
    ensures
        r == lower_byte(b),
{
    if 65 <= b && b <= 90 {
        b + 32
    } else {
        b
    }
}

/// Case-insensitive (ASCII) equality of two byte slices.
pub fn eq_ignore_case(a: &[u8], b: &[u8]) -> (r: bool)
    ensures
        r == (lower_bytes(a@) == lower_bytes(b@)),
{
    if a.len() != b.len() {
        assert(lower_bytes(a@) != lower_bytes(b@)) by {
            assert(lower_bytes(a@).len() != lower_bytes(b@).len());
        }
        return false;
    }
    let mut i: usize = 0;
    while i < a.len()
        invariant
            i <= a@.len(),
            a@.len() == b@.len(),
            forall|k: int| 0 <= k < i ==> lower_bytes(a@)[k] == lower_bytes(b@)[k],
        decreases a@.len() - i,
    {
        if lower_byte_x(a[i]) != lower_byte_x(b[i]) {
            assert(lower_bytes(a@)[i as int] != lower_bytes(b@)[i as int]);
            return false;
        }
        i += 1;
    }
    assert(lower_bytes(a@) =~= lower_bytes(b@));
    true
}

pub fn starts_with_bytes(s: &[u8], p: &[u8]) -> (r: bool)
    ensures
        r == has_prefix(s@, p@),
{
    if p.len() > s.len() {
        return false;
    }
    let mut i: usize = 0;
    while i < p.len()
        invariant
            i <= p@.len() <= s@.len(),
            forall|k: int| 0 <= k < i ==> s@[k] == p@[k],
        decreases p@.len() - i,
    {
        if s[i] != p[i] {
            assert(s@.subrange(0, p@.len() as int)[i as int] != p@[i as int]);
            return false;
        }
        i += 1;
    }
    assert(s@.subrange(0, p@.len() as int) =~= p@);
    true
}

/// A copy of `s[i..j]` as a fresh vector.
pub fn copy_range(s: &[u8], i: usize, j: usize) -> (v: Vec<u8>)
    requires
        i <= j <= s@.len(),
    ensures
        v@ == s@.subrange(i as int, j as int),
{
    slice_to_vec(slice_subrange(s, i, j))
}

pub fn find_byte(s: &[u8], t: u8, from: usize) -> (r: Option<usize>)
    ensures
        match r {
            Some(i) => from <= i < s@.len() && s@[i as int] == t && find_byte_from(
                s@,
                t,
                from as int,
            ) == Some(i as int),
            None => find_byte_from(s@, t, from as int) is None,
        },
{
    let mut i: usize = from;
    while i < s.len()
        invariant
            from <= i,
            find_byte_from(s@, t, from as int) == find_byte_from(s@, t, i as int),
        decreases s@.len() - i,
    {
        if s[i] == t {
            return Some(i);
        }
        i += 1;
    }
    None
}

pub fn find_crlf(s: &[u8], from: usize) -> (r: Option<usize>)
    ensures
        match r {
            Some(i) => from <= i && i + 2 <= s@.len() && find_crlf_from(s@, from as int) == Some(
                i as int,
            ),
            None => find_crlf_from(s@, from as int) is None,
        },
{
    if s.len() < 2 || from > s.len() - 2 {
        return None;
    }
    let mut i: usize = from;
    while i <= s.len() - 2
        invariant
            from <= i,
            s@.len() >= 2,
            find_crlf_from(s@, from as int) == find_crlf_from(s@, i as int),
        decreases s@.len() - i,
    {
        if s[i] == 13 && s[i + 1] == 10 {
            return Some(i);
        }
        i += 1;
    }
    None
}

pub fn find_blank(s: &[u8], from: usize) -> (r: Option<usize>)
    ensures
        match r {
            Some(i) => from <= i && i + 4 <= s@.len() && find_blank_from(s@, from as int) == Some(
                i as int,
            ),
            None => find_blank_from(s@, from as int) is None,
        },
{
    if s.len() < 4 || from > s.len() - 4 {
        return None;
    }
    let mut i: usize = from;
    while i <= s.len() - 4
        invariant
            from <= i,
            s@.len() >= 4,
            find_blank_from(s@, from as int) == find_blank_from(s@, i as int),
        decreases s@.len() - i,
    {
        if s[i] == 13 && s[i + 1] == 10 && s[i + 2] == 13 && s[i + 3] == 10 {
            return Some(i);
        }
        i += 1;
    }
    None
}

pub fn skip_ws(s: &[u8], from: usize) -> (r: usize)
    ensures
        r as int == skip_ws_from(s@, from as int),
        r <= s@.len(),
        from <= r || r as int == s@.len(),
{
    if from >= s.len() {
        return s.len();
    }
    let mut i: usize = from;
    while i < s.len()
        invariant
            from <= i <= s@.len(),
            skip_ws_from(s@, from as int) == skip_ws_from(s@, i as int),
        decreases s@.len() - i,
    {
        if !(s[i] == 32 || s[i] == 9) {
            return i;
        }
        i += 1;
    }
    s.len()
}

pub fn token_end(s: &[u8], from: usize) -> (r: usize)
    ensures
        r as int == token_end_from(s@, from as int),
        r <= s@.len(),
        from <= r || r as int == s@.len(),
{
    if from >= s.len() {
        return s.len();
    }
    let mut i: usize = from;
    while i < s.len()
        invariant
            from <= i <= s@.len(),
            token_end_from(s@, from as int) == token_end_from(s@, i as int),
        decreases s@.len() - i,
    {
        if s[i] == 32 || s[i] == 9 {
            return i;
        }
        i += 1;
    }
    s.len()
}

/// A copy of `s` with leading and trailing whitespace removed.
pub fn trim_bytes(s: &[u8]) -> (v: Vec<u8>)
    ensures
        v@ == trim_ws(s@),
{
    let mut lo: usize = 0;
    assert(s@.skip(0) =~= s@);
    while lo < s.len() && (s[lo] == 32 || s[lo] == 9)
        invariant
            lo <= s@.len(),
            drop_leading_ws(s@) == drop_leading_ws(s@.skip(lo as int)),
        decreases s@.len() - lo,
    {
        assert(s@.skip(lo as int).drop_first() =~= s@.skip(lo as int + 1));
        lo += 1;
    }
    assert(drop_leading_ws(s@) =~= s@.skip(lo as int)) by {
        if lo < s@.len() {
            assert(s@.skip(lo as int)[0] == s@[lo as int]);
        } else {
            assert(s@.skip(lo as int).len() == 0);
        }
    }
    let mut hi: usize = s.len();
    while hi > lo && (s[hi - 1] == 32 || s[hi - 1] == 9)
        invariant
            lo <= hi <= s@.len(),
            drop_leading_ws(s@) == s@.skip(lo as int),
            drop_trailing_ws(s@.skip(lo as int)) == drop_trailing_ws(
                s@.subrange(lo as int, hi as int),
            ),
        decreases hi,
    {
        assert(s@.subrange(lo as int, hi as int).drop_last() =~= s@.subrange(
            lo as int,
            hi as int - 1,
        ));
        assert(s@.subrange(lo as int, hi as int).len() == hi - lo);
        assert(s@.subrange(lo as int, hi as int)[hi - lo - 1] == s@[hi as int - 1]);
        hi -= 1;
    }
    assert(s@.skip(lo as int) =~= s@.subrange(lo as int, s@.len() as int));
    assert(drop_trailing_ws(s@.subrange(lo as int, hi as int)) =~= s@.subrange(
        lo as int,
        hi as int,
    )) by {
        if hi > lo {
            assert(s@.subrange(lo as int, hi as int)[hi - lo - 1] == s@[hi as int - 1]);
        } else {
            assert(s@.subrange(lo as int, hi as int).len() == 0);
        }
    }
    copy_range(s, lo, hi)
}

/// Decimal parsing of a byte sequence into a `usize`.
pub fn parse_dec(s: &[u8]) -> (r: Option<usize>)
    ensures
        match r {
            Some(n) => spec_parse_dec(s@) == Some(n as int),
            None => spec_parse_dec(s@) is None,
        },
{
    if s.len() == 0 {
        return None;
    }
    let mut i: usize = 0;
    while i < s.len()
        invariant
            i <= s@.len(),
            forall|k: int| 0 <= k < i ==> is_digit(#[trigger] s@[k]),
        decreases s@.len() - i,
    {
        if s[i] < 48 || s[i] > 57 {
            assert(!is_digit(s@[i as int]));
            return None;
        }
        i += 1;
    }
    assert(all_digits(s@));
    let mut acc: u128 = 0;
    let mut j: usize = 0;
    while j < s.len()
        invariant
            j <= s@.len(),
            all_digits(s@),
            s@.len() > 0,
            acc as nat == dec_val(s@.subrange(0, j as int)),
            acc <= usize::MAX as u128,
        decreases s@.len() - j,
    {
        let d: u128 = (s[j] - 48) as u128;
        assert(s@.subrange(0, j as int + 1).drop_last() =~= s@.subrange(0, j as int));
        assert(s@.subrange(0, j as int + 1)[j as int] == s@[j as int]);
        let next: u128 = acc * 10 + d;
        assert(next as nat == dec_val(s@.subrange(0, j as int + 1)));
        if next > usize::MAX as u128 {
            proof {
                lemma_dec_val_prefix_le(s@, j as int + 1, s@.len() as int);
                assert(s@.subrange(0, s@.len() as int) =~= s@);
            }
            return None;
        }
        acc = next;
        j += 1;
    }
    assert(s@.subrange(0, s@.len() as int) =~= s@);
    Some(acc as usize)
}

/// The lines of `s`, split on CRLF; always at least one element.
pub fn split_crlf(s: &[u8]) -> (r: Vec<Vec<u8>>)
    ensures
        seq_views(r@) == split_crlf_from(s@, 0),
        r@.len() >= 1,
{
    let mut parts: Vec<Vec<u8>> = Vec::new();
    let mut from: usize = 0;
    let slen: usize = s.len();
    loop
        invariant
            from <= s@.len(),
            s@.len() == slen,
            split_crlf_from(s@, 0) == seq_views(parts@) + split_crlf_from(s@, from as int),
        decreases s@.len() - from,
    {
        match find_crlf(s, from) {
            Some(i) => {
                let part = copy_range(s, from, i);
                proof {
                    let cur = split_crlf_from(s@, from as int);
                    assert(cur == seq![s@.subrange(from as int, i as int)] + split_crlf_from(
                        s@,
                        i as int + 2,
                    ));
                    assert(seq_views(parts@.push(part)) =~= seq_views(parts@) + seq![part@]);
                    assert(seq_views(parts@) + cur =~= seq_views(parts@.push(part))
                        + split_crlf_from(s@, i as int + 2));
                }
                parts.push(part);
                from = i + 2;
            },
            None => {
                let part = copy_range(s, from, s.len());
                proof {
                    let cur = split_crlf_from(s@, from as int);
                    assert(cur == seq![s@.subrange(from as int, s@.len() as int)]);
                    assert(seq_views(parts@.push(part)) =~= seq_views(parts@) + seq![part@]);
                    assert(seq_views(parts@) + cur =~= seq_views(parts@.push(part)));
                }
                parts.push(part);
                assert(seq_views(parts@).len() == parts@.len());
                return parts;
            },
        }
    }
}

/// The fields of `s`, split on the byte `sep`.
pub fn split_on_byte(s: &[u8], sep: u8) -> (r: Vec<Vec<u8>>)
    ensures
        seq_views(r@) == split_on_byte_from(s@, sep, 0),
{
    let mut parts: Vec<Vec<u8>> = Vec::new();
    let mut from: usize = 0;
    let slen: usize = s.len();
    loop
        invariant
            from <= s@.len(),
            s@.len() == slen,
            split_on_byte_from(s@, sep, 0) == seq_views(parts@) + split_on_byte_from(
                s@,
                sep,
                from as int,
            ),
        decreases s@.len() - from,
    {
        match find_byte(s, sep, from) {
            Some(i) => {
                let part = copy_range(s, from, i);
                proof {
                    let cur = split_on_byte_from(s@, sep, from as int);
                    assert(cur == seq![s@.subrange(from as int, i as int)] + split_on_byte_from(
                        s@,
                        sep,
                        i as int + 1,
                    ));
                    assert(seq_views(parts@.push(part)) =~= seq_views(parts@) + seq![part@]);
                    assert(seq_views(parts@) + cur =~= seq_views(parts@.push(part))
                        + split_on_byte_from(s@, sep, i as int + 1));
                }
                parts.push(part);
                from = i + 1;
            },
            None => {
                let part = copy_range(s, from, s.len());
                proof {
                    let cur = split_on_byte_from(s@, sep, from as int);
                    assert(cur == seq![s@.subrange(from as int, s@.len() as int)]);
                    assert(seq_views(parts@.push(part)) =~= seq_views(parts@) + seq![part@]);
                    assert(seq_views(parts@) + cur =~= seq_views(parts@.push(part)));
                }
                parts.push(part);
                return parts;
            },
        }
    }
}

} // verus!
