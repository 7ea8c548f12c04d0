//! Ethereum-style signed transactions: the nine-field wire layout, its
//! canonical codec, and sender recovery.
//!
//! A transaction travels as one list of nine string items: nonce, gas price,
//! gas limit, recipient, value, input data, and the signature triple
//! `v, r, s`. Numeric fields are minimal big-endian; the recipient is empty
//! for contract creation and twenty bytes for a call.
use vstd::prelude::*;

use crate::bytes::be_val;
use crate::bytes::be_val_u64;
use crate::bytes::lemma_be_val_lower;
use crate::bytes::lemma_be_val_lower_contra;
use crate::bytes::lemma_pow256_positive;
use crate::bytes::lemma_min_be_unique;
use crate::bytes::lemma_min_be_val;
use crate::bytes::lemma_pow256_8;
use crate::bytes::min_be;
use crate::bytes::pad_left_to;
use crate::bytes::pow256;
use crate::bytes::spec_min_be;
use crate::bytes::u64_to_min_be;
use crate::crypto::keccak256;
use crate::bytes::copy_whole;
use crate::crypto::keccak_of;
use crate::crypto::recover_of;
use crate::crypto::recover_public;
use crate::rlp::append_bytes;
use crate::rlp::append_rlp_list_header;
use crate::rlp::append_rlp_str;
use crate::rlp::copy_range;
use crate::rlp::lemma_parse_list_of_encoding;
use crate::rlp::lemma_parse_list_sound;
use crate::rlp::lemma_parse_str_of_encoding;
use crate::rlp::lemma_parse_str_sound;
use crate::rlp::parse_list_at;
use crate::rlp::parse_str_at;
use crate::rlp::rlp_list;
use crate::rlp::rlp_list_header;
use crate::rlp::rlp_str;
use crate::rlp::rlp_str_header;
use crate::rlp::spec_parse_list;
use crate::rlp::spec_parse_str;

verus! {

/// What a transaction acts on: creating a contract or calling an address.
pub enum TxAction {
    /// Deploys a new contract; the recipient field is empty on the wire.
    Create,
    /// Calls the given 20-byte address.
    Call(Vec<u8>),
}

/// A decoded transaction, fields as they stand on the wire.
pub struct Transaction {
    pub nonce: Vec<u8>,
    pub gas_price: Vec<u8>,
    pub gas: Vec<u8>,
    pub action: TxAction,
    pub value: Vec<u8>,
    pub data: Vec<u8>,
    pub v: u64,
    pub sig_r: Vec<u8>,
    pub sig_s: Vec<u8>,
}

/// A numeric wire field: minimal big-endian, at most one 256-bit word.
pub open spec fn quantity_wf(s: Seq<u8>) -> bool {
    min_be(s) && s.len() <= 32
}

/// The recipient field as it stands on the wire.
pub open spec fn action_bytes(a: TxAction) -> Seq<u8> {
    match a {
        TxAction::Create => Seq::empty(),
        TxAction::Call(addr) => addr@,
    }
}

pub open spec fn action_wf(a: TxAction) -> bool {
    match a {
        TxAction::Create => true,
        TxAction::Call(addr) => addr@.len() == 20,
    }
}

/// The bytes of the `i`-th wire field, in list order.
pub open spec fn tx_field(t: Transaction, i: int) -> Seq<u8> {
    if i == 0 {
        t.nonce@
    } else if i == 1 {
        t.gas_price@
    } else if i == 2 {
        t.gas@
    } else if i == 3 {
        action_bytes(t.action)
    } else if i == 4 {
        t.value@
    } else if i == 5 {
        t.data@
    } else if i == 6 {
        spec_min_be(t.v as nat)
    } else if i == 7 {
        t.sig_r@
    } else {
        t.sig_s@
    }
}

/// Concatenation of the first `i` encoded wire fields.
pub open spec fn tx_items(t: Transaction, i: int) -> Seq<u8>
    decreases i,
{
    if i <= 0 {
        Seq::empty()
    } else {
        tx_items(t, i - 1) + rlp_str(tx_field(t, i - 1))
    }
}

/// Concatenation of the encoded wire fields from `i` on.
pub open spec fn tx_items_from(t: Transaction, i: int) -> Seq<u8>
    decreases 9 - i,
{
    if i < 0 || i >= 9 {
        Seq::empty()
    } else {
        rlp_str(tx_field(t, i)) + tx_items_from(t, i + 1)
    }
}

/// A well-formed transaction: every numeric field canonical, the recipient
/// empty or twenty bytes, and the whole list encodable.
pub open spec fn tx_wf(t: Transaction) -> bool {
    &&& quantity_wf(t.nonce@)
    &&& quantity_wf(t.gas_price@)
    &&& quantity_wf(t.gas@)
    &&& action_wf(t.action)
    &&& quantity_wf(t.value@)
    &&& quantity_wf(t.sig_r@)
    &&& quantity_wf(t.sig_s@)
    &&& tx_items(t, 9).len() < pow256(8)
}

/// The canonical wire encoding of a signed transaction.
pub open spec fn spec_tx_rlp(t: Transaction) -> Seq<u8> {
    rlp_list(tx_items(t, 9))
}

/// Where the `i`-th item starts within the encoding.
pub open spec fn item_pos(t: Transaction, i: int) -> int {
    rlp_list_header(tx_items(t, 9).len()).len() + tx_items(t, i).len() as int
}

proof fn lemma_tx_items_split(t: Transaction, i: int)
    requires
        0 <= i <= 9,
    ensures
        tx_items(t, i) + tx_items_from(t, i) == tx_items(t, 9),
    decreases 9 - i,
{
    if i == 9 {
        assert(tx_items(t, 9) + tx_items_from(t, 9) =~= tx_items(t, 9));
    } else {
        lemma_tx_items_split(t, i + 1);
        assert(tx_items(t, i + 1) == tx_items(t, i) + rlp_str(tx_field(t, i)));
        assert(tx_items(t, i) + tx_items_from(t, i) =~= tx_items(t, i + 1) + tx_items_from(
            t,
            i + 1,
        ));
    }
}

/// Every field of an encodable transaction is itself encodable.
proof fn lemma_tx_field_len(t: Transaction, i: int)
    requires
        0 <= i < 9,
        tx_items(t, 9).len() < pow256(8),
    ensures
        tx_field(t, i).len() < pow256(8),
{
    lemma_tx_items_split(t, i);
    assert(tx_items_from(t, i) == rlp_str(tx_field(t, i)) + tx_items_from(t, i + 1));
    assert(rlp_str(tx_field(t, i)).len() <= tx_items(t, 9).len());
    assert(tx_field(t, i).len() <= rlp_str(tx_field(t, i)).len());
}

/// The parser finds the `i`-th field of an encoded transaction exactly where
/// the encoder put it.
proof fn lemma_tx_item_at(t: Transaction, i: int)
    requires
        tx_wf(t),
        0 <= i < 9,
    ensures
        ({
            let raw = spec_tx_rlp(t);
            let f = tx_field(t, i);
            let start = item_pos(t, i) + rlp_str_header(f).len();
            &&& spec_parse_str(raw, item_pos(t, i)) == Some((start, f.len() as int))
            &&& raw.subrange(start, start + f.len() as int) == f
            &&& start + f.len() == item_pos(t, i + 1)
        }),
{
    let raw = spec_tx_rlp(t);
    let f = tx_field(t, i);
    let pre = rlp_list_header(tx_items(t, 9).len()) + tx_items(t, i);
    let rest = tx_items_from(t, i + 1);
    lemma_tx_items_split(t, i);
    assert(tx_items_from(t, i) == rlp_str(f) + rest);
    assert(raw =~= pre + rlp_str(f) + rest);
    lemma_tx_field_len(t, i);
    lemma_parse_str_of_encoding(pre, f, rest);
    assert(pre.len() == item_pos(t, i));
    assert(tx_items(t, i + 1) == tx_items(t, i) + rlp_str(f));
}

/// The outer list of an encoded transaction parses to its item region.
proof fn lemma_tx_list_at(t: Transaction)
    requires
        tx_wf(t),
    ensures
        ({
            let raw = spec_tx_rlp(t);
            let hl = rlp_list_header(tx_items(t, 9).len()).len();
            &&& spec_parse_list(raw, 0) == Some((hl as int, tx_items(t, 9).len() as int))
            &&& hl + tx_items(t, 9).len() == raw.len()
            &&& hl == item_pos(t, 0)
        }),
{
    let raw = spec_tx_rlp(t);
    lemma_parse_list_of_encoding(tx_items(t, 9), Seq::empty());
    assert(rlp_list(tx_items(t, 9)) + Seq::<u8>::empty() =~= raw);
    assert(tx_items(t, 0).len() == 0);
}

/// Parsing stops exactly at the end of an encoded transaction.
proof fn lemma_tx_end(t: Transaction)
    requires
        tx_wf(t),
    ensures
        item_pos(t, 9) == spec_tx_rlp(t).len(),
{
}

/// Renders the canonical signed-transaction encoding.
pub fn encode_transaction(t: &Transaction) -> (r: Vec<u8>)
    ensures
        r@ == spec_tx_rlp(*t),
{
    let items = encode_items(t);
    let mut out: Vec<u8> = Vec::new();
    append_rlp_list_header(&mut out, items.len());
    append_bytes(&mut out, &items);
    out
}

/// Renders the nine encoded wire fields, without the list header.
fn encode_items(t: &Transaction) -> (r: Vec<u8>)
    ensures
        r@ == tx_items(*t, 9),
{
    let mut items: Vec<u8> = Vec::new();
    proof {
        reveal_with_fuel(tx_items, 10);
    }
    append_rlp_str(&mut items, &t.nonce);
    assert(items@ =~= tx_items(*t, 1));
    append_rlp_str(&mut items, &t.gas_price);
    assert(items@ =~= tx_items(*t, 2));
    append_rlp_str(&mut items, &t.gas);
    assert(items@ =~= tx_items(*t, 3));
    match &t.action {
        TxAction::Create => {
            let empty: Vec<u8> = Vec::new();
            append_rlp_str(&mut items, &empty);
        },
        TxAction::Call(addr) => {
            append_rlp_str(&mut items, addr);
        },
    }
    assert(items@ =~= tx_items(*t, 4));
    append_rlp_str(&mut items, &t.value);
    assert(items@ =~= tx_items(*t, 5));
    append_rlp_str(&mut items, &t.data);
    assert(items@ =~= tx_items(*t, 6));
    let v_be = u64_to_min_be(t.v);
    append_rlp_str(&mut items, &v_be);
    assert(items@ =~= tx_items(*t, 7));
    append_rlp_str(&mut items, &t.sig_r);
    assert(items@ =~= tx_items(*t, 8));
    append_rlp_str(&mut items, &t.sig_s);
    assert(items@ =~= tx_items(*t, 9));
    items
}

/// Whether a byte string is a canonical numeric field.
pub fn quantity_ok(s: &Vec<u8>) -> (r: bool)
    ensures
        r == quantity_wf(s@),
{
    if s.len() > 32 {
        return false;
    }
    if s.len() > 0 && s[0] == 0 {
        return false;
    }
    true
}

/// Takes the string item at `pos`: its payload and the position just past it.
/// Takes the string item at `pos` as the `i`-th wire field: its payload and
/// the position just past it. Carries the decoding invariant: wherever the
/// input is the encoding of a well-formed transaction, the payload is that
/// transaction's `i`-th field.
fn take_tx_field(raw: &Vec<u8>, pos: usize, i: Ghost<int>) -> (r: Option<(Vec<u8>, usize)>)
    requires
        0 <= i@ < 9,
        forall|t: Transaction|
            tx_wf(t) && raw@ == #[trigger] spec_tx_rlp(t) ==> pos == item_pos(t, i@),
    ensures
        match r {
            Some(fp) => {
                &&& pos <= fp.1 <= raw@.len()
                &&& raw@.subrange(pos as int, fp.1 as int) == rlp_str(fp.0@)
                &&& forall|t: Transaction|
                    tx_wf(t) && raw@ == #[trigger] spec_tx_rlp(t) ==> fp.0@ == tx_field(t, i@)
                        && fp.1 == item_pos(t, i@ + 1)
            },
            None => forall|t: Transaction| tx_wf(t) ==> raw@ != #[trigger] spec_tx_rlp(t),
        },
{
    let total = raw.len();
    match parse_str_at(raw, pos) {
        Some((st, ln)) => {
            assert(st + ln <= total);
            let f = copy_range(raw, st, st + ln);
            proof {
                lemma_parse_str_sound(raw@, pos as int);
                assert forall|t: Transaction|
                    tx_wf(t) && raw@ == #[trigger] spec_tx_rlp(t) implies f@ == tx_field(t, i@)
                    && st + ln == item_pos(t, i@ + 1) by {
                    lemma_tx_item_at(t, i@);
                }
            }
            Some((f, st + ln))
        },
        None => {
            proof {
                assert forall|t: Transaction| tx_wf(t) implies raw@ != #[trigger] spec_tx_rlp(
                    t,
                ) by {
                    if raw@ == spec_tx_rlp(t) {
                        lemma_tx_item_at(t, i@);
                    }
                }
            }
            None
        },
    }
}

/// A byte string whose one list holds the nine encoded fields of `t`, item
/// by item, is the encoding of `t`.
proof fn lemma_reconstruct(
    t: Transaction,
    raw: Seq<u8>,
    ps: int,
    p1: int,
    p2: int,
    p3: int,
    p4: int,
    p5: int,
    p6: int,
    p7: int,
    p8: int,
    p9: int,
)
    requires
        0 <= ps <= p1 <= p2 <= p3 <= p4 <= p5 <= p6 <= p7 <= p8 <= p9 == raw.len(),
        raw.subrange(ps, p1) == rlp_str(tx_field(t, 0)),
        raw.subrange(p1, p2) == rlp_str(tx_field(t, 1)),
        raw.subrange(p2, p3) == rlp_str(tx_field(t, 2)),
        raw.subrange(p3, p4) == rlp_str(tx_field(t, 3)),
        raw.subrange(p4, p5) == rlp_str(tx_field(t, 4)),
        raw.subrange(p5, p6) == rlp_str(tx_field(t, 5)),
        raw.subrange(p6, p7) == rlp_str(tx_field(t, 6)),
        raw.subrange(p7, p8) == rlp_str(tx_field(t, 7)),
        raw.subrange(p8, p9) == rlp_str(tx_field(t, 8)),
        spec_parse_list(raw, 0) == Some((ps, p9 - ps)),
    ensures
        raw == spec_tx_rlp(t),
        tx_items(t, 9).len() == p9 - ps,
{
    reveal_with_fuel(tx_items, 10);
    assert(tx_items(t, 1) =~= raw.subrange(ps, p1));
    assert(tx_items(t, 2) =~= raw.subrange(ps, p2));
    assert(tx_items(t, 3) =~= raw.subrange(ps, p3));
    assert(tx_items(t, 4) =~= raw.subrange(ps, p4));
    assert(tx_items(t, 5) =~= raw.subrange(ps, p5));
    assert(tx_items(t, 6) =~= raw.subrange(ps, p6));
    assert(tx_items(t, 7) =~= raw.subrange(ps, p7));
    assert(tx_items(t, 8) =~= raw.subrange(ps, p8));
    assert(tx_items(t, 9) =~= raw.subrange(ps, p9));
    lemma_parse_list_sound(raw, 0);
    assert(raw == rlp_list(raw.subrange(ps, p9)));
}

/// Decodes the canonical signed-transaction encoding.
///
/// Returns the transaction exactly when `raw` is the canonical encoding of a
/// well-formed transaction, and nothing otherwise: no well-formed transaction
/// encodes to a rejected byte string.
#[verifier::rlimit(50)]
pub fn decode_transaction(raw: &Vec<u8>) -> (r: Option<Transaction>)
    ensures
        match r {
            Some(t) => tx_wf(t) && raw@ == spec_tx_rlp(t),
            None => forall|t: Transaction| tx_wf(t) ==> raw@ != #[trigger] spec_tx_rlp(t),
        },
{
    let total = raw.len();
    let (ps, pl) = match parse_list_at(raw, 0) {
        Some(x) => x,
        None => {
            proof {
                assert forall|t: Transaction| tx_wf(t) implies raw@ != #[trigger] spec_tx_rlp(
                    t,
                ) by {
                    if raw@ == spec_tx_rlp(t) {
                        lemma_tx_list_at(t);
                    }
                }
            }
            return None;
        },
    };
    assert(ps + pl <= total);
    if ps + pl != total {
        proof {
            assert forall|t: Transaction| tx_wf(t) implies raw@ != #[trigger] spec_tx_rlp(t) by {
                if raw@ == spec_tx_rlp(t) {
                    lemma_tx_list_at(t);
                }
            }
        }
        return None;
    }
    assert(forall|t: Transaction|
        tx_wf(t) && raw@ == #[trigger] spec_tx_rlp(t) ==> ps == item_pos(t, 0)) by {
        assert forall|t: Transaction| tx_wf(t) && raw@ == #[trigger] spec_tx_rlp(t) implies ps
            == item_pos(t, 0) by {
            lemma_tx_list_at(t);
        }
    }
    let (fld0, pos1) = match take_tx_field(raw, ps, Ghost(0)) {
        Some(x) => x,
        None => {
            return None;
        },
    };
    let (fld1, pos2) = match take_tx_field(raw, pos1, Ghost(1)) {
        Some(x) => x,
        None => {
            return None;
        },
    };
    let (fld2, pos3) = match take_tx_field(raw, pos2, Ghost(2)) {
        Some(x) => x,
        None => {
            return None;
        },
    };
    let (fld3, pos4) = match take_tx_field(raw, pos3, Ghost(3)) {
        Some(x) => x,
        None => {
            return None;
        },
    };
    let (fld4, pos5) = match take_tx_field(raw, pos4, Ghost(4)) {
        Some(x) => x,
        None => {
            return None;
        },
    };
    let (fld5, pos6) = match take_tx_field(raw, pos5, Ghost(5)) {
        Some(x) => x,
        None => {
            return None;
        },
    };
    let (fld6, pos7) = match take_tx_field(raw, pos6, Ghost(6)) {
        Some(x) => x,
        None => {
            return None;
        },
    };
    let (fld7, pos8) = match take_tx_field(raw, pos7, Ghost(7)) {
        Some(x) => x,
        None => {
            return None;
        },
    };
    let (fld8, pos9) = match take_tx_field(raw, pos8, Ghost(8)) {
        Some(x) => x,
        None => {
            return None;
        },
    };
    if pos9 != total {
        proof {
            assert forall|t: Transaction| tx_wf(t) implies raw@ != #[trigger] spec_tx_rlp(t) by {
                if raw@ == spec_tx_rlp(t) {
                    lemma_tx_end(t);
                }
            }
        }
        return None;
    }
    // Canonicality of the numeric fields.
    if !(quantity_ok(&fld0) && quantity_ok(&fld1) && quantity_ok(&fld2) && quantity_ok(&fld4)
        && quantity_ok(&fld7) && quantity_ok(&fld8)) {
        proof {
            assert forall|t: Transaction| tx_wf(t) implies raw@ != #[trigger] spec_tx_rlp(t) by {}
        }
        return None;
    }
    // The signature's replay marker is a machine word, minimally encoded.
    if !(fld6.len() <= 8 && (fld6.len() == 0 || fld6[0] != 0)) {
        proof {
            assert forall|t: Transaction| tx_wf(t) implies raw@ != #[trigger] spec_tx_rlp(t) by {
                if raw@ == spec_tx_rlp(t) {
                    lemma_min_be_val(t.v as nat);
                    lemma_pow256_8();
                    lemma_be_val_lower_contra(t.v as nat);
                }
            }
        }
        return None;
    }
    // The recipient is empty (creation) or a 20-byte address (call).
    let action = if fld3.len() == 0 {
        TxAction::Create
    } else if fld3.len() == 20 {
        TxAction::Call(fld3)
    } else {
        proof {
            assert forall|t: Transaction| tx_wf(t) implies raw@ != #[trigger] spec_tx_rlp(t) by {}
        }
        return None;
    };
    let ghost fld3_view = action_bytes(action);
    let v = be_val_u64(&fld6);
    proof {
        lemma_min_be_unique(fld6@);
    }
    let t_new = Transaction {
        nonce: fld0,
        gas_price: fld1,
        gas: fld2,
        action,
        value: fld4,
        data: fld5,
        v,
        sig_r: fld7,
        sig_s: fld8,
    };
    proof {
        assert(tx_field(t_new, 6) =~= fld6@);
        assert(tx_field(t_new, 3) =~= fld3_view);
        lemma_reconstruct(
            t_new,
            raw@,
            ps as int,
            pos1 as int,
            pos2 as int,
            pos3 as int,
            pos4 as int,
            pos5 as int,
            pos6 as int,
            pos7 as int,
            pos8 as int,
            pos9 as int,
        );
        lemma_pow256_8();
        assert(tx_wf(t_new));
    }
    Some(t_new)
}

/// Member items of the signing pre-image: the first six fields, plus the
/// replay-protection triple when the signature carries a chain marker.
pub open spec fn unsigned_items(t: Transaction, chain_id: Option<u64>) -> Seq<u8> {
    match chain_id {
        None => tx_items(t, 6),
        Some(id) => tx_items(t, 6) + rlp_str(spec_min_be(id as nat)) + rlp_str(Seq::empty())
            + rlp_str(Seq::empty()),
    }
}

/// The signing pre-image of a transaction.
pub open spec fn spec_unsigned_rlp(t: Transaction, chain_id: Option<u64>) -> Seq<u8> {
    rlp_list(unsigned_items(t, chain_id))
}

/// Renders the first six encoded wire fields.
fn encode_items6(t: &Transaction) -> (r: Vec<u8>)
    ensures
        r@ == tx_items(*t, 6),
{
    let mut items: Vec<u8> = Vec::new();
    proof {
        reveal_with_fuel(tx_items, 10);
    }
    append_rlp_str(&mut items, &t.nonce);
    assert(items@ =~= tx_items(*t, 1));
    append_rlp_str(&mut items, &t.gas_price);
    assert(items@ =~= tx_items(*t, 2));
    append_rlp_str(&mut items, &t.gas);
    assert(items@ =~= tx_items(*t, 3));
    match &t.action {
        TxAction::Create => {
            let empty: Vec<u8> = Vec::new();
            append_rlp_str(&mut items, &empty);
        },
        TxAction::Call(addr) => {
            append_rlp_str(&mut items, addr);
        },
    }
    assert(items@ =~= tx_items(*t, 4));
    append_rlp_str(&mut items, &t.value);
    assert(items@ =~= tx_items(*t, 5));
    append_rlp_str(&mut items, &t.data);
    assert(items@ =~= tx_items(*t, 6));
    items
}

/// Renders the signing pre-image.
pub fn encode_unsigned(t: &Transaction, chain_id: Option<u64>) -> (r: Vec<u8>)
    ensures
        r@ == spec_unsigned_rlp(*t, chain_id),
{
    let mut items = encode_items6(t);
    match chain_id {
        None => {},
        Some(id) => {
            let id_be = u64_to_min_be(id);
            append_rlp_str(&mut items, &id_be);
            let empty: Vec<u8> = Vec::new();
            append_rlp_str(&mut items, &empty);
            append_rlp_str(&mut items, &empty);
            assert(items@ =~= unsigned_items(*t, chain_id));
        },
    }
    let mut out: Vec<u8> = Vec::new();
    append_rlp_list_header(&mut out, items.len());
    append_bytes(&mut out, &items);
    out
}

/// The chain marker a signature's replay byte carries: transactions signed
/// for one chain name it in `v`; legacy signatures carry none.
pub open spec fn spec_chain_id(v: u64) -> Option<u64> {
    if v >= 35 {
        Some((((v - 35) / 2) as u64))
    } else {
        None
    }
}

/// The recovery identifier a signature's replay byte carries.
pub open spec fn spec_recid(v: u64) -> u8 {
    if v == 27 || v == 28 {
        (v - 27) as u8
    } else {
        ((v - 35) % 2) as u8
    }
}

/// The replay bytes under which a signature can be checked at all.
pub open spec fn v_valid(v: u64) -> bool {
    v == 27 || v == 28 || v >= 35
}

/// A quantity left-padded with zeros to one 256-bit word.
pub open spec fn pad32(s: Seq<u8>) -> Seq<u8> {
    Seq::new((32 - s.len()) as nat, |i: int| 0u8) + s
}

/// The 32-byte hash a transaction's signature signs.
pub open spec fn sig_hash_of(t: Transaction) -> Seq<u8> {
    keccak_of(spec_unsigned_rlp(t, spec_chain_id(t.v)))
}

/// The account that signed a transaction: the trailing twenty bytes of the
/// hash of the recovered public key, or nothing when the signature does not
/// check out (an unusable replay byte, an unsigned marker of all-zero
/// scalars, or a failed recovery).
pub open spec fn spec_sender(t: Transaction) -> Option<Seq<u8>> {
    if !v_valid(t.v) || (be_val(t.sig_r@) == 0 && be_val(t.sig_s@) == 0) {
        None
    } else {
        match recover_of(sig_hash_of(t), pad32(t.sig_r@) + pad32(t.sig_s@), spec_recid(t.v)) {
            None => None,
            Some(pk) => Some(keccak_of(pk.skip(1)).skip(12)),
        }
    }
}

/// Recovers the sender of a signed transaction, or nothing when the
/// signature does not check out.
pub fn recover_sender(t: &Transaction) -> (r: Option<Vec<u8>>)
    requires
        tx_wf(*t),
    ensures
        match r {
            Some(addr) => spec_sender(*t) == Some(addr@) && addr@.len() == 20,
            None => spec_sender(*t) is None,
        },
{
    if !(t.v == 27 || t.v == 28 || t.v >= 35) {
        return None;
    }
    if t.sig_r.len() == 0 && t.sig_s.len() == 0 {
        return None;
    }
    proof {
        if t.sig_r@.len() > 0 {
            lemma_be_val_lower(t.sig_r@);
            lemma_pow256_positive((t.sig_r@.len() - 1) as nat);
        } else {
            lemma_be_val_lower(t.sig_s@);
            lemma_pow256_positive((t.sig_s@.len() - 1) as nat);
        }
    }
    let chain_id: Option<u64> = if t.v >= 35 {
        Some((t.v - 35) / 2)
    } else {
        None
    };
    let recid: u8 = if t.v >= 35 {
        ((t.v - 35) % 2) as u8
    } else {
        (t.v - 27) as u8
    };
    let preimage = encode_unsigned(t, chain_id);
    let msg = keccak256(&preimage);
    let mut rs = pad_left_to(&t.sig_r, 32);
    let s32 = pad_left_to(&t.sig_s, 32);
    append_bytes(&mut rs, &s32);
    assert(rs@ == pad32(t.sig_r@) + pad32(t.sig_s@));
    match recover_public(&msg, &rs, recid) {
        Some(pk) => {
            let body = copy_range(&pk, 1, 65);
            assert(body@ =~= pk@.skip(1));
            let digest = keccak256(&body);
            let addr = copy_range(&digest, 12, 32);
            assert(addr@ =~= digest@.skip(12));
            Some(addr)
        },
        None => None,
    }
}

/// A transaction that passed signature recovery, with its sender and hash.
pub struct SignedTransaction {
    pub transaction: Transaction,
    /// The recovered 20-byte sender address.
    pub sender: Vec<u8>,
    /// The hash of the raw encoding, keying the transaction on the chain.
    pub hash: Vec<u8>,
}

/// What every `SignedTransaction` the coordinator accepts satisfies.
pub open spec fn signed_wf(st: SignedTransaction) -> bool {
    &&& tx_wf(st.transaction)
    &&& spec_sender(st.transaction) == Some(st.sender@)
    &&& st.sender@.len() == 20
    &&& st.hash@ == keccak_of(spec_tx_rlp(st.transaction))
    &&& st.hash@.len() == 32
}

/// Transactions with the same field contents encode and validate alike.
proof fn lemma_tx_items_congruent(a: Transaction, b: Transaction, i: int)
    requires
        a.nonce@ == b.nonce@,
        a.gas_price@ == b.gas_price@,
        a.gas@ == b.gas@,
        action_bytes(a.action) == action_bytes(b.action),
        a.value@ == b.value@,
        a.data@ == b.data@,
        a.v == b.v,
        a.sig_r@ == b.sig_r@,
        a.sig_s@ == b.sig_s@,
    ensures
        tx_items(a, i) == tx_items(b, i),
    decreases i,
{
    if i > 0 {
        lemma_tx_items_congruent(a, b, i - 1);
        assert(tx_field(a, i - 1) == tx_field(b, i - 1));
    }
}

/// Two transactions with the same field contents are interchangeable: same
/// encoding, same well-formedness, same signer.
pub proof fn lemma_tx_congruent(a: Transaction, b: Transaction)
    requires
        a.nonce@ == b.nonce@,
        a.gas_price@ == b.gas_price@,
        a.gas@ == b.gas@,
        action_bytes(a.action) == action_bytes(b.action),
        (a.action is Create <==> b.action is Create),
        a.value@ == b.value@,
        a.data@ == b.data@,
        a.v == b.v,
        a.sig_r@ == b.sig_r@,
        a.sig_s@ == b.sig_s@,
    ensures
        spec_tx_rlp(a) == spec_tx_rlp(b),
        tx_wf(a) <==> tx_wf(b),
        spec_sender(a) == spec_sender(b),
        sig_hash_of(a) == sig_hash_of(b),
{
    lemma_tx_items_congruent(a, b, 9);
    lemma_tx_items_congruent(a, b, 6);
    match a.action {
        TxAction::Create => {},
        TxAction::Call(addr) => {
            assert(action_wf(a.action) <==> action_wf(b.action));
        },
    }
}

impl Transaction {
    /// Copies the transaction, field for field.
    pub fn duplicate(&self) -> (r: Self)
        ensures
            r.nonce@ == self.nonce@,
            r.gas_price@ == self.gas_price@,
            r.gas@ == self.gas@,
            action_bytes(r.action) == action_bytes(self.action),
            (r.action is Create <==> self.action is Create),
            r.value@ == self.value@,
            r.data@ == self.data@,
            r.v == self.v,
            r.sig_r@ == self.sig_r@,
            r.sig_s@ == self.sig_s@,
            spec_tx_rlp(r) == spec_tx_rlp(*self),
            tx_wf(r) <==> tx_wf(*self),
            spec_sender(r) == spec_sender(*self),
    {
        let action = match &self.action {
            TxAction::Create => TxAction::Create,
            TxAction::Call(addr) => TxAction::Call(copy_whole(addr)),
        };
        let r = Transaction {
            nonce: copy_whole(&self.nonce),
            gas_price: copy_whole(&self.gas_price),
            gas: copy_whole(&self.gas),
            action,
            value: copy_whole(&self.value),
            data: copy_whole(&self.data),
            v: self.v,
            sig_r: copy_whole(&self.sig_r),
            sig_s: copy_whole(&self.sig_s),
        };
        proof {
            lemma_tx_congruent(r, *self);
        }
        r
    }
}

/// Two signed transactions carrying the same contents, field for field.
pub open spec fn signed_alike(a: SignedTransaction, b: SignedTransaction) -> bool {
    &&& a.sender@ == b.sender@
    &&& a.hash@ == b.hash@
    &&& a.transaction.nonce@ == b.transaction.nonce@
    &&& a.transaction.gas_price@ == b.transaction.gas_price@
    &&& a.transaction.gas@ == b.transaction.gas@
    &&& action_bytes(a.transaction.action) == action_bytes(b.transaction.action)
    &&& (a.transaction.action is Create <==> b.transaction.action is Create)
    &&& a.transaction.value@ == b.transaction.value@
    &&& a.transaction.data@ == b.transaction.data@
    &&& a.transaction.v == b.transaction.v
    &&& a.transaction.sig_r@ == b.transaction.sig_r@
    &&& a.transaction.sig_s@ == b.transaction.sig_s@
    &&& spec_tx_rlp(a.transaction) == spec_tx_rlp(b.transaction)
    &&& spec_sender(a.transaction) == spec_sender(b.transaction)
}

impl SignedTransaction {
    /// Copies the signed transaction, field for field.
    pub fn duplicate(&self) -> (r: Self)
        ensures
            signed_alike(r, *self),
            signed_wf(*self) ==> signed_wf(r),
    {
        let r = SignedTransaction {
            transaction: self.transaction.duplicate(),
            sender: copy_whole(&self.sender),
            hash: copy_whole(&self.hash),
        };
        r
    }
}

/// The canonical encoding is injective: two well-formed transactions with
/// the same encoding carry the same field contents.
#[verifier::rlimit(50)]
pub proof fn lemma_tx_rlp_injective(t1: Transaction, t2: Transaction)
    requires
        tx_wf(t1),
        tx_wf(t2),
        spec_tx_rlp(t1) == spec_tx_rlp(t2),
    ensures
        t1.nonce@ == t2.nonce@,
        t1.gas_price@ == t2.gas_price@,
        t1.gas@ == t2.gas@,
        action_bytes(t1.action) == action_bytes(t2.action),
        (t1.action is Create <==> t2.action is Create),
        t1.value@ == t2.value@,
        t1.data@ == t2.data@,
        t1.v == t2.v,
        t1.sig_r@ == t2.sig_r@,
        t1.sig_s@ == t2.sig_s@,
        spec_sender(t1) == spec_sender(t2),
        sig_hash_of(t1) == sig_hash_of(t2),
{
    lemma_tx_list_at(t1);
    lemma_tx_list_at(t2);
    assert(item_pos(t1, 0) == item_pos(t2, 0));
    lemma_tx_item_at(t1, 0);
    lemma_tx_item_at(t2, 0);
    assert(tx_field(t1, 0) == tx_field(t2, 0) && item_pos(t1, 1) == item_pos(t2, 1));
    lemma_tx_item_at(t1, 1);
    lemma_tx_item_at(t2, 1);
    assert(tx_field(t1, 1) == tx_field(t2, 1) && item_pos(t1, 2) == item_pos(t2, 2));
    lemma_tx_item_at(t1, 2);
    lemma_tx_item_at(t2, 2);
    assert(tx_field(t1, 2) == tx_field(t2, 2) && item_pos(t1, 3) == item_pos(t2, 3));
    lemma_tx_item_at(t1, 3);
    lemma_tx_item_at(t2, 3);
    assert(tx_field(t1, 3) == tx_field(t2, 3) && item_pos(t1, 4) == item_pos(t2, 4));
    lemma_tx_item_at(t1, 4);
    lemma_tx_item_at(t2, 4);
    assert(tx_field(t1, 4) == tx_field(t2, 4) && item_pos(t1, 5) == item_pos(t2, 5));
    lemma_tx_item_at(t1, 5);
    lemma_tx_item_at(t2, 5);
    assert(tx_field(t1, 5) == tx_field(t2, 5) && item_pos(t1, 6) == item_pos(t2, 6));
    lemma_tx_item_at(t1, 6);
    lemma_tx_item_at(t2, 6);
    assert(tx_field(t1, 6) == tx_field(t2, 6) && item_pos(t1, 7) == item_pos(t2, 7));
    lemma_tx_item_at(t1, 7);
    lemma_tx_item_at(t2, 7);
    assert(tx_field(t1, 7) == tx_field(t2, 7) && item_pos(t1, 8) == item_pos(t2, 8));
    lemma_tx_item_at(t1, 8);
    lemma_tx_item_at(t2, 8);
    assert(tx_field(t1, 8) == tx_field(t2, 8));
    lemma_min_be_val(t1.v as nat);
    lemma_min_be_val(t2.v as nat);
    assert(t1.v == t2.v);
    match t1.action {
        TxAction::Create => {
            assert(action_bytes(t1.action).len() == 0);
            match t2.action {
                TxAction::Create => {},
                TxAction::Call(addr) => {
                    assert(action_bytes(t2.action).len() == 20);
                },
            }
        },
        TxAction::Call(addr) => {
            assert(action_bytes(t1.action).len() == 20);
            match t2.action {
                TxAction::Create => {
                    assert(action_bytes(t2.action).len() == 0);
                },
                TxAction::Call(addr2) => {},
            }
        },
    }
    lemma_tx_congruent(t1, t2);
}

} // verus!
