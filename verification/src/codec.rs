//! Canonical byte serialization of blocks: the JSON encoding whose digest
//! is a block's hash, and which also frames blocks on the peer wire.
//!
//! The encoding writes a block's fields in declaration order, numbers in
//! decimal, strings quoted with the usual JSON escapes, and no whitespace.

use crate::block::{Block, Transaction, TransactionV, txs_view};
use vstd::prelude::*;
use vstd::string::StrSliceExecFns;
use vstd::string::StringSliceAdditionalSpecFns;
use vstd::utf8::encode_utf8;

verus! {

/// The UTF-8 bytes of a literal piece of the encoding.
pub open spec fn lit_bytes(s: &str) -> Seq<u8> {
    encode_utf8(s@)
}

/// The decimal digits of a number, most significant first, as ASCII bytes.
pub open spec fn dec_of(n: nat) -> Seq<u8>
    decreases n,
{
    if n < 10 {
        seq![(48 + n) as u8]
    } else {
        dec_of(n / 10).push((48 + n % 10) as u8)
    }
}

/// The lowercase hex digit byte for a value below sixteen.
pub open spec fn hex_byte(n: int) -> u8
    recommends
        0 <= n < 16,
{
    if n < 10 {
        (48 + n) as u8
    } else {
        (87 + n) as u8
    }
}

/// How one byte of string content is written: quote and backslash get a
/// backslash escape, control bytes get their short escape or a \u00 form,
/// and every other byte stands as itself.
pub open spec fn esc_byte(b: u8) -> Seq<u8> {
    if b == 34 {
        seq![92u8, 34u8]
    } else if b == 92 {
        seq![92u8, 92u8]
    } else if b == 8 {
        seq![92u8, 98u8]
    } else if b == 9 {
        seq![92u8, 116u8]
    } else if b == 10 {
        seq![92u8, 110u8]
    } else if b == 12 {
        seq![92u8, 102u8]
    } else if b == 13 {
        seq![92u8, 114u8]
    } else if b < 32 {
        seq![92u8, 117u8, 48u8, 48u8, hex_byte(b as int / 16), hex_byte(b as int % 16)]
    } else {
        seq![b]
    }
}

/// The escaped form of a whole byte string.
pub open spec fn esc_bytes(s: Seq<u8>) -> Seq<u8>
    decreases s.len(),
{
    if s.len() == 0 {
        Seq::empty()
    } else {
        esc_byte(s[0]) + esc_bytes(s.drop_first())
    }
}

/// Escaping a byte string one byte longer appends that byte's escape.
pub proof fn lemma_esc_bytes_push(s: Seq<u8>, b: u8)
    ensures
        esc_bytes(s.push(b)) == esc_bytes(s) + esc_byte(b),
    decreases s.len(),
{
    if s.len() == 0 {
        assert(s.push(b)[0] == b);
        assert(s.push(b).drop_first() =~= Seq::<u8>::empty());
        assert(esc_bytes(Seq::<u8>::empty()) =~= Seq::<u8>::empty());
        assert(esc_bytes(s) =~= Seq::<u8>::empty());
        assert(esc_bytes(s.push(b)) =~= esc_bytes(s) + esc_byte(b));
    } else {
        assert(s.push(b)[0] == s[0]);
        assert(s.push(b).drop_first() =~= s.drop_first().push(b));
        lemma_esc_bytes_push(s.drop_first(), b);
        assert(esc_bytes(s.push(b)) =~= esc_bytes(s) + esc_byte(b));
    }
}

/// A string of the encoding: quoted and escaped UTF-8.
pub open spec fn json_str_bytes(s: Seq<char>) -> Seq<u8> {
    seq![34u8] + esc_bytes(encode_utf8(s)) + seq![34u8]
}

/// The encoding of one transaction.
pub open spec fn json_of_tx(t: TransactionV) -> Seq<u8> {
    lit_bytes("{\"from\":") + json_str_bytes(t.from) + lit_bytes(",\"to\":") + json_str_bytes(t.to)
        + lit_bytes(",\"amount\":") + dec_of(t.amount as nat) + lit_bytes("}")
}

/// The first `i` transactions of a batch, encoded and comma-separated.
pub open spec fn json_items(ts: Seq<TransactionV>, i: int) -> Seq<u8>
    recommends
        i <= ts.len(),
    decreases i,
{
    if i <= 0 {
        Seq::empty()
    } else if i == 1 {
        json_of_tx(ts[0])
    } else {
        json_items(ts, i - 1) + lit_bytes(",") + json_of_tx(ts[i - 1])
    }
}

/// The encoding of a transaction batch.
pub open spec fn json_of_txs(ts: Seq<TransactionV>) -> Seq<u8> {
    lit_bytes("[") + json_items(ts, ts.len() as int) + lit_bytes("]")
}

/// The canonical encoding of a block. The `hash` field is part of the
/// encoded content, whatever it currently holds.
pub open spec fn json_of_block(b: crate::block::BlockV) -> Seq<u8> {
    lit_bytes("{\"index\":") + dec_of(b.index as nat) + lit_bytes(",\"previous_hash\":")
        + json_str_bytes(b.previous_hash) + lit_bytes(",\"timestamp\":") + dec_of(
        b.timestamp as nat,
    ) + lit_bytes(",\"transactions\":") + json_of_txs(b.transactions) + lit_bytes(",\"nonce\":")
        + dec_of(b.nonce as nat) + lit_bytes(",\"hash\":") + json_str_bytes(b.hash) + lit_bytes(
        "}",
    )
}

/// Appends every byte of `bytes` to `out`.
fn push_bytes(out: &mut Vec<u8>, bytes: &Vec<u8>)
    ensures
        final(out)@ == old(out)@ + bytes@,
{
    let ghost out0 = out@;
    let mut i: usize = 0;
    while i < bytes.len()
        invariant
            i <= bytes@.len(),
            out@ == out0 + bytes@.subrange(0, i as int),
        decreases bytes@.len() - i,
    {
        out.push(bytes[i]);
        proof {
            assert(out0 + bytes@.subrange(0, i + 1) =~= (out0 + bytes@.subrange(
                0,
                i as int,
            )).push(bytes@[i as int]));
        }
        i += 1;
    }
    proof {
        assert(bytes@.subrange(0, bytes@.len() as int) =~= bytes@);
    }
}

/// Appends a literal piece of the encoding.
fn write_lit(out: &mut Vec<u8>, s: &str)
    ensures
        final(out)@ == old(out)@ + lit_bytes(s),
{
    let bytes = s.as_bytes_vec();
    push_bytes(out, &bytes);
}

/// Appends the decimal digits of a number.
fn write_dec(out: &mut Vec<u8>, n: u64)
    ensures
        final(out)@ == old(out)@ + dec_of(n as nat),
{
    let mut rev: Vec<u8> = Vec::new();
    let mut m: u64 = n;
    while m >= 10
        invariant
            dec_of(n as nat) == dec_of(m as nat) + rev@.reverse(),
        decreases m,
    {
        let d: u8 = (m % 10) as u8 + 48;
        proof {
            assert(rev@.push(d).reverse() =~= seq![d] + rev@.reverse());
            assert(dec_of(m as nat) == dec_of((m as nat) / 10).push(d));
            assert(dec_of((m as nat) / 10).push(d) + rev@.reverse() =~= dec_of((m as nat) / 10) + (
            seq![d] + rev@.reverse()));
        }
        rev.push(d);
        m = m / 10;
    }
    let d: u8 = m as u8 + 48;
    proof {
        assert(dec_of(m as nat) =~= seq![d]);
        assert(rev@.push(d).reverse() =~= seq![d] + rev@.reverse());
    }
    rev.push(d);
    proof {
        assert(dec_of(n as nat) == rev@.reverse());
    }
    let ghost out0 = out@;
    let ghost target = rev@.reverse();
    let mut k: usize = 0;
    while k < rev.len()
        invariant
            k <= rev@.len(),
            target == rev@.reverse(),
            out@ == out0 + target.subrange(0, k as int),
        decreases rev@.len() - k,
    {
        let idx = rev.len() - 1 - k;
        out.push(rev[idx]);
        proof {
            assert(target[k as int] == rev@[rev@.len() - 1 - k]);
            assert(out0 + target.subrange(0, k + 1) =~= (out0 + target.subrange(0, k as int)).push(
                target[k as int],
            ));
        }
        k += 1;
    }
    proof {
        assert(target.subrange(0, target.len() as int) =~= target);
    }
}

/// The lowercase hex digit byte, executably.
fn hex_byte_exec(n: u8) -> (r: u8)
    requires
        n < 16,
    ensures
        r == hex_byte(n as int),
{
    if n < 10 {
        48 + n
    } else {
        87 + n
    }
}

/// Appends the escaped form of one byte of string content.
fn write_esc_byte(out: &mut Vec<u8>, b: u8)
    ensures
        final(out)@ == old(out)@ + esc_byte(b),
{
    let ghost out0 = out@;
    if b == 34 {
        out.push(92);
        out.push(34);
    } else if b == 92 {
        out.push(92);
        out.push(92);
    } else if b == 8 {
        out.push(92);
        out.push(98);
    } else if b == 9 {
        out.push(92);
        out.push(116);
    } else if b == 10 {
        out.push(92);
        out.push(110);
    } else if b == 12 {
        out.push(92);
        out.push(102);
    } else if b == 13 {
        out.push(92);
        out.push(114);
    } else if b < 32 {
        out.push(92);
        out.push(117);
        out.push(48);
        out.push(48);
        out.push(hex_byte_exec(b / 16));
        out.push(hex_byte_exec(b % 16));
    } else {
        out.push(b);
    }
    proof {
        assert(out@ =~= out0 + esc_byte(b));
    }
}

/// Appends a quoted, escaped string of the encoding.
fn write_json_str(out: &mut Vec<u8>, s: &str)
    ensures
        final(out)@ == old(out)@ + json_str_bytes(s@),
{
    let ghost out0 = out@;
    out.push(34);
    let bytes = s.as_bytes_vec();
    let mut i: usize = 0;
    while i < bytes.len()
        invariant
            i <= bytes@.len(),
            bytes@ == encode_utf8(s@),
            out@ == out0 + seq![34u8] + esc_bytes(bytes@.subrange(0, i as int)),
        decreases bytes@.len() - i,
    {
        write_esc_byte(out, bytes[i]);
        proof {
            assert(bytes@.subrange(0, i + 1) =~= bytes@.subrange(0, i as int).push(
                bytes@[i as int],
            ));
            lemma_esc_bytes_push(bytes@.subrange(0, i as int), bytes@[i as int]);
            assert(out@ =~= out0 + seq![34u8] + esc_bytes(bytes@.subrange(0, i + 1)));
        }
        i += 1;
    }
    out.push(34);
    proof {
        assert(bytes@.subrange(0, bytes@.len() as int) =~= bytes@);
        assert(out@ =~= out0 + json_str_bytes(s@));
    }
}

/// Appends the encoding of one transaction.
fn write_json_tx(out: &mut Vec<u8>, t: &Transaction)
    ensures
        final(out)@ == old(out)@ + json_of_tx(t@),
{
    let ghost out0 = out@;
    write_lit(out, "{\"from\":");
    write_json_str(out, t.from.as_str());
    write_lit(out, ",\"to\":");
    write_json_str(out, t.to.as_str());
    write_lit(out, ",\"amount\":");
    write_dec(out, t.amount);
    write_lit(out, "}");
    proof {
        assert(out@ =~= out0 + json_of_tx(t@));
    }
}

/// Appends the encoding of a transaction batch.
fn write_json_txs(out: &mut Vec<u8>, ts: &Vec<Transaction>)
    ensures
        final(out)@ == old(out)@ + json_of_txs(txs_view(ts@)),
{
    let ghost out0 = out@;
    let ghost tsv = txs_view(ts@);
    write_lit(out, "[");
    let mut i: usize = 0;
    while i < ts.len()
        invariant
            i <= ts@.len(),
            tsv == txs_view(ts@),
            tsv.len() == ts@.len(),
            out@ == out0 + lit_bytes("[") + json_items(tsv, i as int),
        decreases ts@.len() - i,
    {
        if i > 0 {
            write_lit(out, ",");
        }
        write_json_tx(out, &ts[i]);
        proof {
            assert(tsv[i as int] == ts@[i as int]@);
            if i == 0 {
                assert(json_items(tsv, 1) == json_of_tx(tsv[0]));
            }
            assert(out@ =~= out0 + lit_bytes("[") + json_items(tsv, i + 1));
        }
        i += 1;
    }
    write_lit(out, "]");
    proof {
        assert(out@ =~= out0 + json_of_txs(tsv));
    }
}

/// The canonical encoding of a block, as the bytes that are hashed and
/// that go on the wire.
pub fn block_json(b: &Block) -> (r: Vec<u8>)
    ensures
        r@ == json_of_block(b@),
{
    let mut out: Vec<u8> = Vec::new();
    write_lit(&mut out, "{\"index\":");
    write_dec(&mut out, b.index);
    write_lit(&mut out, ",\"previous_hash\":");
    write_json_str(&mut out, b.previous_hash.as_str());
    write_lit(&mut out, ",\"timestamp\":");
    write_dec(&mut out, b.timestamp);
    write_lit(&mut out, ",\"transactions\":");
    write_json_txs(&mut out, &b.transactions);
    write_lit(&mut out, ",\"nonce\":");
    write_dec(&mut out, b.nonce);
    write_lit(&mut out, ",\"hash\":");
    write_json_str(&mut out, b.hash.as_str());
    write_lit(&mut out, "}");
    proof {
        assert(out@ =~= json_of_block(b@));
    }
    out
}

/// The wire framing of a block: its canonical encoding followed by the
/// newline that delimits messages on a peer stream.
pub fn block_wire_line(b: &Block) -> (r: Vec<u8>)
    ensures
        r@ == json_of_block(b@) + seq![10u8],
{
    let mut out = block_json(b);
    out.push(10);
    proof {
        assert(out@ =~= json_of_block(b@) + seq![10u8]);
    }
    out
}

} // verus!
