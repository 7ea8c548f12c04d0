//! The recursive-length-prefix wire format, restricted to what a transaction
//! needs: byte-string items and one enclosing list.
//!
//! Encoding is canonical: a single byte below 0x80 stands for itself, short
//! payloads carry a one-byte header, long payloads a header with a minimal
//! big-endian length. The parser accepts exactly the canonical forms, so a
//! byte string parses in at most one way.
use vstd::prelude::*;

use crate::bytes::be_val;
use crate::bytes::lemma_be_val_lower_contra;
use crate::bytes::lemma_min_be_val;
use crate::bytes::lemma_min_be_unique;
use crate::bytes::lemma_pow256_8;
use crate::bytes::min_be;
use crate::bytes::pow256;
use crate::bytes::spec_min_be;
use crate::bytes::be_val_u64;
use crate::bytes::u64_to_min_be;

verus! {

/// Header bytes that precede a string payload.
pub open spec fn rlp_str_header(p: Seq<u8>) -> Seq<u8> {
    if p.len() == 1 && p[0] < 0x80 {
        Seq::empty()
    } else if p.len() < 56 {
        seq![(0x80 + p.len()) as u8]
    } else {
        seq![(0xb7 + spec_min_be(p.len()) .len()) as u8] + spec_min_be(p.len())
    }
}

/// A string item: header followed by the payload.
pub open spec fn rlp_str(p: Seq<u8>) -> Seq<u8> {
    rlp_str_header(p) + p
}

/// Header bytes that precede a list payload of `n` bytes.
pub open spec fn rlp_list_header(n: nat) -> Seq<u8> {
    if n < 56 {
        seq![(0xc0 + n) as u8]
    } else {
        seq![(0xf7 + spec_min_be(n).len()) as u8] + spec_min_be(n)
    }
}

/// A list item: header followed by the concatenated member items.
pub open spec fn rlp_list(payload: Seq<u8>) -> Seq<u8> {
    rlp_list_header(payload.len()) + payload
}

/// Where a canonical string item starting at `pos` keeps its payload:
/// `Some((payload_start, payload_len))`, or `None` when no canonical string
/// item starts there.
pub open spec fn spec_parse_str(raw: Seq<u8>, pos: int) -> Option<(int, int)> {
    if pos < 0 || pos >= raw.len() {
        None
    } else {
        let b = raw[pos];
        if b < 0x80 {
            Some((pos, 1))
        } else if b <= 0xb7 {
            let len = (b - 0x80) as int;
            if pos + 1 + len <= raw.len() && !(len == 1 && raw[pos + 1] < 0x80) {
                Some((pos + 1, len))
            } else {
                None
            }
        } else if b <= 0xbf {
            let ll = (b - 0xb7) as int;
            if pos + 1 + ll <= raw.len() {
                let len = be_val(raw.subrange(pos + 1, pos + 1 + ll)) as int;
                if raw[pos + 1] != 0 && len >= 56 && pos + 1 + ll + len <= raw.len() {
                    Some((pos + 1 + ll, len))
                } else {
                    None
                }
            } else {
                None
            }
        } else {
            None
        }
    }
}

/// Where a canonical list item starting at `pos` keeps its payload.
pub open spec fn spec_parse_list(raw: Seq<u8>, pos: int) -> Option<(int, int)> {
    if pos < 0 || pos >= raw.len() {
        None
    } else {
        let b = raw[pos];
        if b < 0xc0 {
            None
        } else if b <= 0xf7 {
            let len = (b - 0xc0) as int;
            if pos + 1 + len <= raw.len() {
                Some((pos + 1, len))
            } else {
                None
            }
        } else {
            let ll = (b - 0xf7) as int;
            if pos + 1 + ll <= raw.len() {
                let len = be_val(raw.subrange(pos + 1, pos + 1 + ll)) as int;
                if raw[pos + 1] != 0 && len >= 56 && pos + 1 + ll + len <= raw.len() {
                    Some((pos + 1 + ll, len))
                } else {
                    None
                }
            } else {
                None
            }
        }
    }
}

/// Parsing inverts encoding: wherever an encoded string item sits inside a
/// larger byte string, the parser finds exactly its payload.
pub proof fn lemma_parse_str_of_encoding(pre: Seq<u8>, p: Seq<u8>, rest: Seq<u8>)
    requires
        p.len() < pow256(8),
    ensures
        ({
            let raw = pre + rlp_str(p) + rest;
            let start = pre.len() + rlp_str_header(p).len();
            &&& spec_parse_str(raw, pre.len() as int) == Some(
                (start as int, p.len() as int),
            )
            &&& raw.subrange(start as int, start + p.len() as int) == p
        }),
{
    let raw = pre + rlp_str(p) + rest;
    let pos = pre.len() as int;
    let hl = rlp_str_header(p).len();
    let start = pre.len() + hl;
    assert forall|i: int| 0 <= i < rlp_str(p).len() implies raw[pos + i] == rlp_str(p)[i] by {}
    if p.len() == 1 && p[0] < 0x80 {
        assert(rlp_str(p) =~= p);
        assert(raw[pos] == p[0]);
        assert(raw.subrange(start as int, start + p.len() as int) =~= p);
    } else if p.len() < 56 {
        assert(rlp_str_header(p) == seq![(0x80 + p.len()) as u8]);
        assert(raw[pos] == (0x80 + p.len()) as u8);
        let b = raw[pos];
        assert(0x80 <= b <= 0xb7);
        assert((b - 0x80) as int == p.len() as int);
        if p.len() == 1 {
            assert(rlp_str(p)[1] == p[0]);
            assert(raw[pos + 1] == p[0]);
            assert(raw[pos + 1] >= 0x80);
        }
        assert(raw.subrange(start as int, start + p.len() as int) =~= p);
    } else {
        let lb = spec_min_be(p.len());
        lemma_min_be_val(p.len());
        lemma_pow256_8();
        lemma_be_val_lower_contra(p.len());
        assert(1 <= lb.len() <= 8);
        assert(rlp_str_header(p) == seq![(0xb7 + lb.len()) as u8] + lb);
        assert(raw[pos] == (0xb7 + lb.len()) as u8);
        let b = raw[pos];
        assert(0xb8 <= b <= 0xbf);
        let ll = (b - 0xb7) as int;
        assert(ll == lb.len() as int);
        assert forall|i: int| 0 <= i < lb.len() implies raw[pos + 1 + i] == lb[i] by {
            assert(rlp_str(p)[1 + i] == lb[i]);
        }
        assert(raw.subrange(pos + 1, pos + 1 + ll) =~= lb);
        assert(raw[pos + 1] == lb[0]);
        assert(lb[0] != 0);
        assert(be_val(raw.subrange(pos + 1, pos + 1 + ll)) == p.len());
        assert(raw.subrange(start as int, start + p.len() as int) =~= p);
    }
}

/// Parsing only ever consumes a canonical string item: the consumed bytes
/// are exactly the encoding of the returned payload.
pub proof fn lemma_parse_str_sound(raw: Seq<u8>, pos: int)
    requires
        spec_parse_str(raw, pos) is Some,
    ensures
        ({
            let (start, len) = spec_parse_str(raw, pos)->Some_0;
            &&& pos <= start
            &&& start + len <= raw.len()
            &&& len >= 0
            &&& raw.subrange(pos, start + len) == rlp_str(raw.subrange(start, start + len))
        }),
{
    let (start, len) = spec_parse_str(raw, pos)->Some_0;
    let p = raw.subrange(start, start + len);
    let b = raw[pos];
    if b < 0x80 {
        assert(p =~= seq![raw[pos]]);
        assert(raw.subrange(pos, start + len) =~= rlp_str_header(p) + p);
    } else if b <= 0xb7 {
        assert(start == pos + 1 && len == b - 0x80);
        assert(p.len() == len);
        if len == 1 {
            assert(p[0] == raw[pos + 1]);
            assert(!(p.len() == 1 && p[0] < 0x80));
        }
        assert(rlp_str_header(p) =~= seq![b]);
        assert(raw.subrange(pos, start + len) =~= rlp_str_header(p) + p);
    } else {
        let ll = (b - 0xb7) as int;
        let lb = raw.subrange(pos + 1, pos + 1 + ll);
        assert(min_be(lb));
        lemma_min_be_unique(lb);
        assert(spec_min_be(p.len()) == lb);
        assert(p.len() >= 56);
        assert(rlp_str_header(p) =~= seq![b] + lb);
        assert(raw.subrange(pos, start + len) =~= rlp_str_header(p) + p);
    }
}

/// Parsing inverts encoding for the enclosing list.
pub proof fn lemma_parse_list_of_encoding(payload: Seq<u8>, rest: Seq<u8>)
    requires
        payload.len() < pow256(8),
    ensures
        ({
            let raw = rlp_list(payload) + rest;
            let start = rlp_list_header(payload.len()).len();
            &&& spec_parse_list(raw, 0) == Some((start as int, payload.len() as int))
            &&& raw.subrange(start as int, start + payload.len() as int) == payload
        }),
{
    let raw = rlp_list(payload) + rest;
    let hl = rlp_list_header(payload.len()).len();
    assert forall|i: int| 0 <= i < rlp_list(payload).len() implies raw[i] == rlp_list(payload)[i]
        by {}
    if payload.len() < 56 {
        assert(raw[0] == (0xc0 + payload.len()) as u8);
        assert(raw.subrange(hl as int, hl + payload.len() as int) =~= payload);
    } else {
        let lb = spec_min_be(payload.len());
        lemma_min_be_val(payload.len());
        lemma_pow256_8();
        lemma_be_val_lower_contra(payload.len());
        assert(1 <= lb.len() <= 8);
        assert(raw[0] == (0xf7 + lb.len()) as u8);
        let b = raw[0];
        assert(b > 0xf7);
        let ll = (b - 0xf7) as int;
        assert(ll == lb.len() as int);
        assert forall|i: int| 0 <= i < lb.len() implies raw[1 + i] == lb[i] by {
            assert(rlp_list(payload)[1 + i] == lb[i]);
        }
        assert(raw.subrange(1, 1 + ll) =~= lb);
        assert(raw[1] == lb[0]);
        assert(be_val(raw.subrange(1, 1 + ll)) == payload.len());
        assert(raw.subrange(hl as int, hl + payload.len() as int) =~= payload);
    }
}

/// A successful list parse that spans the input identifies it as a list.
pub proof fn lemma_parse_list_sound(raw: Seq<u8>, pos: int)
    requires
        spec_parse_list(raw, pos) is Some,
        pos == 0,
        ({
            let (start, len) = spec_parse_list(raw, pos)->Some_0;
            start + len == raw.len()
        }),
    ensures
        ({
            let (start, len) = spec_parse_list(raw, pos)->Some_0;
            raw == rlp_list(raw.subrange(start, start + len))
        }),
{
    let (start, len) = spec_parse_list(raw, pos)->Some_0;
    let p = raw.subrange(start, start + len);
    let b = raw[0];
    if b <= 0xf7 {
        assert(start == 1 && len == b - 0xc0);
        assert(p.len() == len);
        assert(rlp_list_header(p.len()) =~= seq![b]);
        assert(raw =~= rlp_list_header(p.len()) + p);
    } else {
        let ll = (b - 0xf7) as int;
        let lb = raw.subrange(1, 1 + ll);
        assert(min_be(lb));
        lemma_min_be_unique(lb);
        assert(spec_min_be(p.len()) == lb);
        assert(p.len() >= 56);
        assert(rlp_list_header(p.len()) =~= seq![b] + lb);
        assert(raw =~= rlp_list_header(p.len()) + p);
    }
}

/// Appends a byte string to a buffer.
pub fn append_bytes(out: &mut Vec<u8>, src: &Vec<u8>)
    ensures
        final(out)@ == old(out)@ + src@,
{
    let n = src.len();
    let mut i: usize = 0;
    while i < n
        invariant
            i <= n,
            n == src@.len(),
            out@ =~= old(out)@ + src@.take(i as int),
        decreases n - i,
    {
        out.push(src[i]);
        assert(out@ =~= old(out)@ + src@.take(i + 1 as int));
        i += 1;
    }
    assert(src@.take(n as int) =~= src@);
}

/// Copies `src[start..end]` into a fresh buffer.
pub fn copy_range(src: &Vec<u8>, start: usize, end: usize) -> (r: Vec<u8>)
    requires
        start <= end <= src@.len(),
    ensures
        r@ == src@.subrange(start as int, end as int),
{
    let mut out: Vec<u8> = Vec::new();
    let mut i: usize = start;
    while i < end
        invariant
            start <= i <= end <= src@.len(),
            out@ =~= src@.subrange(start as int, i as int),
        decreases end - i,
    {
        out.push(src[i]);
        assert(out@ =~= src@.subrange(start as int, i + 1 as int));
        i += 1;
    }
    out
}

/// Appends the encoding of a string item.
pub fn append_rlp_str(out: &mut Vec<u8>, payload: &Vec<u8>)
    ensures
        final(out)@ == old(out)@ + rlp_str(payload@),
{
    let n = payload.len();
    if n == 1 && payload[0] < 0x80 {
        out.push(payload[0]);
        assert(out@ =~= old(out)@ + rlp_str(payload@));
    } else if n < 56 {
        out.push(0x80 + (n as u8));
        append_bytes(out, payload);
        assert(out@ =~= old(out)@ + rlp_str(payload@));
    } else {
        proof {
            lemma_min_be_val(payload@.len());
            lemma_pow256_8();
            lemma_be_val_lower_contra(payload@.len());
        }
        let lb = u64_to_min_be(n as u64);
        out.push(0xb7 + (lb.len() as u8));
        append_bytes(out, &lb);
        append_bytes(out, payload);
        assert(out@ =~= old(out)@ + rlp_str(payload@));
    }
}

/// Appends the header of a list whose member items take `n` bytes.
pub fn append_rlp_list_header(out: &mut Vec<u8>, n: usize)
    ensures
        final(out)@ == old(out)@ + rlp_list_header(n as nat),
{
    if n < 56 {
        out.push(0xc0 + (n as u8));
        assert(out@ =~= old(out)@ + rlp_list_header(n as nat));
    } else {
        proof {
            lemma_min_be_val(n as nat);
            lemma_pow256_8();
            lemma_be_val_lower_contra(n as nat);
        }
        let lb = u64_to_min_be(n as u64);
        out.push(0xf7 + (lb.len() as u8));
        append_bytes(out, &lb);
        assert(out@ =~= old(out)@ + rlp_list_header(n as nat));
    }
}

/// Finds the payload of the canonical string item at `pos`.
pub fn parse_str_at(raw: &Vec<u8>, pos: usize) -> (r: Option<(usize, usize)>)
    ensures
        match r {
            Some(sl) => {
                &&& spec_parse_str(raw@, pos as int) == Some((sl.0 as int, sl.1 as int))
                &&& pos <= sl.0
                &&& sl.0 + sl.1 <= raw@.len()
            },
            None => spec_parse_str(raw@, pos as int) is None,
        },
{
    if pos >= raw.len() {
        return None;
    }
    let b = raw[pos];
    if b < 0x80 {
        Some((pos, 1))
    } else if b <= 0xb7 {
        let len = (b - 0x80) as usize;
        if len <= raw.len() - pos - 1 && !(len == 1 && raw[pos + 1] < 0x80) {
            Some((pos + 1, len))
        } else {
            None
        }
    } else if b <= 0xbf {
        let ll = (b - 0xb7) as usize;
        if ll <= raw.len() - pos - 1 {
            let lb = copy_range(raw, pos + 1, pos + 1 + ll);
            let len = be_val_u64(&lb);
            if raw[pos + 1] != 0 && len >= 56 && len <= (raw.len() - pos - 1 - ll) as u64 {
                Some((pos + 1 + ll, len as usize))
            } else {
                None
            }
        } else {
            None
        }
    } else {
        None
    }
}

/// Finds the payload of the canonical list item at `pos`.
pub fn parse_list_at(raw: &Vec<u8>, pos: usize) -> (r: Option<(usize, usize)>)
    ensures
        match r {
            Some(sl) => {
                &&& spec_parse_list(raw@, pos as int) == Some((sl.0 as int, sl.1 as int))
                &&& pos <= sl.0
                &&& sl.0 + sl.1 <= raw@.len()
            },
            None => spec_parse_list(raw@, pos as int) is None,
        },
{
    if pos >= raw.len() {
        return None;
    }
    let b = raw[pos];
    if b < 0xc0 {
        None
    } else if b <= 0xf7 {
        let len = (b - 0xc0) as usize;
        if len <= raw.len() - pos - 1 {
            Some((pos + 1, len))
        } else {
            None
        }
    } else {
        let ll = (b - 0xf7) as usize;
        if ll <= raw.len() - pos - 1 {
            let lb = copy_range(raw, pos + 1, pos + 1 + ll);
            let len = be_val_u64(&lb);
            if raw[pos + 1] != 0 && len >= 56 && len <= (raw.len() - pos - 1 - ll) as u64 {
                Some((pos + 1 + ll, len as usize))
            } else {
                None
            }
        } else {
            None
        }
    }
}

} // verus!
