//! Serialization of envelopes into compact one-line JSON.
//!
//! The spec functions define the canonical wire text of a message value;
//! the executable functions produce exactly that text.  String contents
//! are escaped as compact JSON serializers do: quote and backslash by a
//! two-byte escape, the common control characters by their short escapes,
//! and the remaining control bytes as `\u00XX`.

use vstd::prelude::*;
use crate::msg::Body;
use crate::msg::BodyV;
use crate::msg::Envelope;
use crate::msg::EnvelopeV;

verus! {

/// The hexadecimal digit (lower case) for a value below 16.
pub open spec fn hex_digit(n: u8) -> u8 {
    if n < 10 { (48 + n) as u8 } else { (87 + n) as u8 }
}

/// The bytes that stand for one content byte inside a JSON string.
pub open spec fn esc_byte(b: u8) -> Seq<u8> {
    if b == 34u8 {
        seq![92u8, 34u8]
    } else if b == 92u8 {
        seq![92u8, 92u8]
    } else if b == 8 {
        seq![92u8, 98u8]
    } else if b == 9 {
        seq![92u8, 116u8]
    } else if b == 10 {
        seq![92u8, 110u8]
    } else if b == 12 {
        seq![92u8, 102u8]
    } else if b == 13 {
        seq![92u8, 114u8]
    } else if b < 32 {
        seq![92u8, 117u8, 48u8, 48u8, hex_digit(b / 16), hex_digit(b % 16)]
    } else {
        seq![b]
    }
}

/// The escaped form of a whole string content.
pub open spec fn enc_content(s: Seq<u8>) -> Seq<u8>
    decreases s.len(),
{
    if s.len() == 0 {
        Seq::empty()
    } else {
        esc_byte(s[0]) + enc_content(s.skip(1))
    }
}

/// A JSON string: quote, escaped content, quote.
pub open spec fn enc_string(s: Seq<u8>) -> Seq<u8> {
    seq![34u8] + enc_content(s) + seq![34u8]
}

/// The decimal digits of an unsigned number, most significant first.
pub open spec fn enc_u64(n: nat) -> Seq<u8>
    decreases n,
{
    if n < 10 {
        seq![(48 + n) as u8]
    } else {
        enc_u64(n / 10) + seq![(48 + n % 10) as u8]
    }
}

/// The elements of a JSON array of strings, comma separated.
pub open spec fn enc_list_items(l: Seq<Seq<u8>>) -> Seq<u8>
    decreases l.len(),
{
    if l.len() == 0 {
        Seq::empty()
    } else if l.len() == 1 {
        enc_string(l[0])
    } else {
        enc_string(l[0]) + seq![44u8] + enc_list_items(l.skip(1))
    }
}

/// A JSON array of strings.
pub open spec fn enc_list(l: Seq<Seq<u8>>) -> Seq<u8> {
    seq![91u8] + enc_list_items(l) + seq![93u8]
}

/// `{"type":"` — every body starts with its tag.
pub open spec fn key_type() -> Seq<u8> {
    seq![123u8, 34u8, 116u8, 121u8, 112u8, 101u8, 34u8, 58u8, 34u8]
}

/// `","msg_id":` — closes the tag string, then the `msg_id` key.
pub open spec fn key_msg_id() -> Seq<u8> {
    seq![34u8, 44u8, 34u8, 109u8, 115u8, 103u8, 95u8, 105u8, 100u8, 34u8, 58u8]
}

/// `","in_reply_to":` — closes the tag string, then the `in_reply_to` key.
pub open spec fn key_in_reply_to_first() -> Seq<u8> {
    seq![34u8, 44u8, 34u8, 105u8, 110u8, 95u8, 114u8, 101u8, 112u8, 108u8, 121u8, 95u8, 116u8, 111u8, 34u8, 58u8]
}

/// `,"node_id":`
pub open spec fn key_node_id() -> Seq<u8> {
    seq![44u8, 34u8, 110u8, 111u8, 100u8, 101u8, 95u8, 105u8, 100u8, 34u8, 58u8]
}

/// `,"node_ids":`
pub open spec fn key_node_ids() -> Seq<u8> {
    seq![44u8, 34u8, 110u8, 111u8, 100u8, 101u8, 95u8, 105u8, 100u8, 115u8, 34u8, 58u8]
}

/// `,"in_reply_to":`
pub open spec fn key_in_reply_to() -> Seq<u8> {
    seq![44u8, 34u8, 105u8, 110u8, 95u8, 114u8, 101u8, 112u8, 108u8, 121u8, 95u8, 116u8, 111u8, 34u8, 58u8]
}

/// `,"echo":`
pub open spec fn key_echo() -> Seq<u8> {
    seq![44u8, 34u8, 101u8, 99u8, 104u8, 111u8, 34u8, 58u8]
}

/// The tag values of the four body kinds.
pub open spec fn tag_init() -> Seq<u8> {
    seq![105u8, 110u8, 105u8, 116u8]
}

pub open spec fn tag_init_ok() -> Seq<u8> {
    seq![105u8, 110u8, 105u8, 116u8, 95u8, 111u8, 107u8]
}

pub open spec fn tag_echo() -> Seq<u8> {
    seq![101u8, 99u8, 104u8, 111u8]
}

pub open spec fn tag_echo_ok() -> Seq<u8> {
    seq![101u8, 99u8, 104u8, 111u8, 95u8, 111u8, 107u8]
}

/// The wire text of a body: `type` first, then the fields in schema order.
pub open spec fn enc_body(b: BodyV) -> Seq<u8> {
    match b {
        BodyV::Init { msg_id, node_id, node_ids } => key_type() + tag_init() + key_msg_id()
            + enc_u64(msg_id as nat) + key_node_id() + enc_string(node_id) + key_node_ids()
            + enc_list(node_ids) + seq![125u8],
        BodyV::InitOk { in_reply_to } => key_type() + tag_init_ok() + key_in_reply_to_first()
            + enc_u64(in_reply_to as nat) + seq![125u8],
        BodyV::Echo { msg_id, echo } => key_type() + tag_echo() + key_msg_id()
            + enc_u64(msg_id as nat) + key_echo() + enc_string(echo) + seq![125u8],
        BodyV::EchoOk { msg_id, in_reply_to, echo } => key_type() + tag_echo_ok() + key_msg_id()
            + enc_u64(msg_id as nat) + key_in_reply_to() + enc_u64(in_reply_to as nat) + key_echo()
            + enc_string(echo) + seq![125u8],
    }
}

/// `{"src":`
pub open spec fn key_src() -> Seq<u8> {
    seq![123u8, 34u8, 115u8, 114u8, 99u8, 34u8, 58u8]
}

/// `,"dest":`
pub open spec fn key_dest() -> Seq<u8> {
    seq![44u8, 34u8, 100u8, 101u8, 115u8, 116u8, 34u8, 58u8]
}

/// `,"body":`
pub open spec fn key_body() -> Seq<u8> {
    seq![44u8, 34u8, 98u8, 111u8, 100u8, 121u8, 34u8, 58u8]
}

/// The wire text of a whole envelope.
pub open spec fn enc_envelope(e: EnvelopeV) -> Seq<u8> {
    key_src() + enc_string(e.src) + key_dest() + enc_string(e.dest) + key_body()
        + enc_body(e.body) + seq![125u8]
}

/// Appends the decimal digits of `n`.
pub fn encode_u64(out: &mut Vec<u8>, n: u64)
    ensures
        final(out)@ == old(out)@ + enc_u64(n as nat),
    decreases n,
{
    if n < 10 {
        out.push((48 + n) as u8);
        assert(out@ =~= old(out)@ + enc_u64(n as nat));
    } else {
        proof {
            assert(n / 10 < n) by (nonlinear_arith)
                requires n >= 10,
            ;
        }
        encode_u64(out, n / 10);
        out.push((48 + n % 10) as u8);
        assert(out@ =~= old(out)@ + enc_u64(n as nat));
    }
}

/// Appends the escaped content bytes of `s` from position `i` on.
fn encode_content(out: &mut Vec<u8>, s: &Vec<u8>, i: usize)
    requires
        i <= s@.len(),
    ensures
        final(out)@ == old(out)@ + enc_content(s@.skip(i as int)),
    decreases s@.len() - i,
{
    if i < s.len() {
        let ghost o0 = out@;
        let b: u8 = s[i];
        if b == 34 {
            out.push(92);
            out.push(34);
        } else if b == 92 {
            out.push(92);
            out.push(92);
        } else if b == 8 {
            out.push(92);
            out.push(98);
        } else if b == 9 {
            out.push(92);
            out.push(116);
        } else if b == 10 {
            out.push(92);
            out.push(110);
        } else if b == 12 {
            out.push(92);
            out.push(102);
        } else if b == 13 {
            out.push(92);
            out.push(114);
        } else if b < 32 {
            let lo: u8 = b % 16;
            out.push(92);
            out.push(117);
            out.push(48);
            out.push(48);
            out.push(48 + b / 16);
            out.push(if lo < 10 { 48 + lo } else { 87 + lo });
        } else {
            out.push(b);
        }
        assert(out@ =~= o0 + esc_byte(b));
        encode_content(out, s, i + 1);
        proof {
            assert(s@.skip(i as int).skip(1) =~= s@.skip(i as int + 1));
            assert(out@ =~= old(out)@ + enc_content(s@.skip(i as int)));
        }
    } else {
        assert(out@ =~= old(out)@ + enc_content(s@.skip(i as int)));
    }
}

/// Appends the JSON string form of `s`, quotes and escapes included.
pub fn encode_string(out: &mut Vec<u8>, s: &Vec<u8>)
    ensures
        final(out)@ == old(out)@ + enc_string(s@),
{
    out.push(34);
    encode_content(out, s, 0);
    out.push(34);
    proof {
        assert(s@.skip(0) =~= s@);
        assert(out@ =~= old(out)@ + enc_string(s@));
    }
}

/// Appends the comma-separated JSON strings of `l` from position `i` on.
fn encode_list_items(out: &mut Vec<u8>, l: &Vec<Vec<u8>>, i: usize)
    requires
        i <= l@.len(),
    ensures
        final(out)@ == old(out)@ + enc_list_items(l@.map_values(|v: Vec<u8>| v@).skip(i as int)),
    decreases l@.len() - i,
{
    let ghost m = l@.map_values(|v: Vec<u8>| v@);
    if i < l.len() {
        encode_string(out, &l[i]);
        if i + 1 < l.len() {
            out.push(44);
            encode_list_items(out, l, i + 1);
        }
        proof {
            assert(m.skip(i as int)[0] == l@[i as int]@);
            assert(m.skip(i as int).skip(1) =~= m.skip(i as int + 1));
            assert(out@ =~= old(out)@ + enc_list_items(m.skip(i as int)));
        }
    } else {
        assert(out@ =~= old(out)@ + enc_list_items(m.skip(i as int)));
    }
}

/// Appends the JSON array of the strings in `l`.
pub fn encode_list(out: &mut Vec<u8>, l: &Vec<Vec<u8>>)
    ensures
        final(out)@ == old(out)@ + enc_list(l@.map_values(|v: Vec<u8>| v@)),
{
    out.push(91);
    encode_list_items(out, l, 0);
    out.push(93);
    proof {
        let m = l@.map_values(|v: Vec<u8>| v@);
        assert(m.skip(0) =~= m);
        assert(out@ =~= old(out)@ + enc_list(m));
    }
}

/// Appends `{"type":"`, the opening of every body object.
fn push_key_type(out: &mut Vec<u8>)
    ensures
        final(out)@ == old(out)@ + key_type(),
{
    out.push(123);
    out.push(34);
    out.push(116);
    out.push(121);
    out.push(112);
    out.push(101);
    out.push(34);
    out.push(58);
    out.push(34);
    assert(out@ =~= old(out)@ + key_type());
}

fn push_key_msg_id(out: &mut Vec<u8>)
    ensures
        final(out)@ == old(out)@ + key_msg_id(),
{
    out.push(34);
    out.push(44);
    out.push(34);
    out.push(109);
    out.push(115);
    out.push(103);
    out.push(95);
    out.push(105);
    out.push(100);
    out.push(34);
    out.push(58);
    assert(out@ =~= old(out)@ + key_msg_id());
}

fn push_key_in_reply_to_first(out: &mut Vec<u8>)
    ensures
        final(out)@ == old(out)@ + key_in_reply_to_first(),
{
    out.push(34);
    out.push(44);
    push_key_in_reply_to_tail(out);
    assert(out@ =~= old(out)@ + key_in_reply_to_first());
}

fn push_key_in_reply_to(out: &mut Vec<u8>)
    ensures
        final(out)@ == old(out)@ + key_in_reply_to(),
{
    out.push(44);
    push_key_in_reply_to_tail(out);
    assert(out@ =~= old(out)@ + key_in_reply_to());
}

/// `"in_reply_to":` — the shared tail of the two keys above.
fn push_key_in_reply_to_tail(out: &mut Vec<u8>)
    ensures
        final(out)@ == old(out)@ + seq![
            34u8, 105u8, 110u8, 95u8, 114u8, 101u8, 112u8, 108u8, 121u8, 95u8, 116u8, 111u8,
            34u8, 58u8,
        ],
{
    out.push(34);
    out.push(105);
    out.push(110);
    out.push(95);
    out.push(114);
    out.push(101);
    out.push(112);
    out.push(108);
    out.push(121);
    out.push(95);
    out.push(116);
    out.push(111);
    out.push(34);
    out.push(58);
    assert(out@ =~= old(out)@ + seq![
        34u8, 105u8, 110u8, 95u8, 114u8, 101u8, 112u8, 108u8, 121u8, 95u8, 116u8, 111u8,
        34u8, 58u8,
    ]);
}

fn push_key_node_id(out: &mut Vec<u8>)
    ensures
        final(out)@ == old(out)@ + key_node_id(),
{
    out.push(44);
    out.push(34);
    out.push(110);
    out.push(111);
    out.push(100);
    out.push(101);
    out.push(95);
    out.push(105);
    out.push(100);
    out.push(34);
    out.push(58);
    assert(out@ =~= old(out)@ + key_node_id());
}

fn push_key_node_ids(out: &mut Vec<u8>)
    ensures
        final(out)@ == old(out)@ + key_node_ids(),
{
    out.push(44);
    out.push(34);
    out.push(110);
    out.push(111);
    out.push(100);
    out.push(101);
    out.push(95);
    out.push(105);
    out.push(100);
    out.push(115);
    out.push(34);
    out.push(58);
    assert(out@ =~= old(out)@ + key_node_ids());
}

fn push_key_echo(out: &mut Vec<u8>)
    ensures
        final(out)@ == old(out)@ + key_echo(),
{
    out.push(44);
    out.push(34);
    out.push(101);
    out.push(99);
    out.push(104);
    out.push(111);
    out.push(34);
    out.push(58);
    assert(out@ =~= old(out)@ + key_echo());
}

/// Appends the tag bytes `init`, `init_ok`, `echo` or `echo_ok`.
fn push_tag(out: &mut Vec<u8>, init: bool, ok: bool)
    ensures
        final(out)@ == old(out)@ + (if init && !ok { tag_init() } else if init && ok { tag_init_ok() }
            else if !init && !ok { tag_echo() } else { tag_echo_ok() }),
{
    if init {
        out.push(105);
        out.push(110);
        out.push(105);
        out.push(116);
    } else {
        out.push(101);
        out.push(99);
        out.push(104);
        out.push(111);
    }
    if ok {
        out.push(95);
        out.push(111);
        out.push(107);
    }
    assert(out@ =~= old(out)@ + (if init && !ok { tag_init() } else if init && ok {
        tag_init_ok()
    } else if !init && !ok { tag_echo() } else { tag_echo_ok() }));
}

/// Appends the wire text of a body.
pub fn encode_body(out: &mut Vec<u8>, b: &Body)
    ensures
        final(out)@ == old(out)@ + enc_body(b@),
{
    match b {
        Body::Init { msg_id, node_id, node_ids } => {
            push_key_type(out);
            push_tag(out, true, false);
            push_key_msg_id(out);
            encode_u64(out, *msg_id);
            push_key_node_id(out);
            encode_string(out, node_id);
            push_key_node_ids(out);
            encode_list(out, node_ids);
            out.push(125);
            assert(out@ =~= old(out)@ + enc_body(b@));
        },
        Body::InitOk { in_reply_to } => {
            push_key_type(out);
            push_tag(out, true, true);
            push_key_in_reply_to_first(out);
            encode_u64(out, *in_reply_to);
            out.push(125);
            assert(out@ =~= old(out)@ + enc_body(b@));
        },
        Body::Echo { msg_id, echo } => {
            push_key_type(out);
            push_tag(out, false, false);
            push_key_msg_id(out);
            encode_u64(out, *msg_id);
            push_key_echo(out);
            encode_string(out, echo);
            out.push(125);
            assert(out@ =~= old(out)@ + enc_body(b@));
        },
        Body::EchoOk { msg_id, in_reply_to, echo } => {
            push_key_type(out);
            push_tag(out, false, true);
            push_key_msg_id(out);
            encode_u64(out, *msg_id);
            push_key_in_reply_to(out);
            encode_u64(out, *in_reply_to);
            push_key_echo(out);
            encode_string(out, echo);
            out.push(125);
            assert(out@ =~= old(out)@ + enc_body(b@));
        },
    }
}

/// The one-line compact JSON text of an envelope.
pub fn encode_envelope(e: &Envelope) -> (r: Vec<u8>)
    ensures
        r@ == enc_envelope(e@),
{
    let mut out: Vec<u8> = Vec::new();
    out.push(123);
    out.push(34);
    out.push(115);
    out.push(114);
    out.push(99);
    out.push(34);
    out.push(58);
    assert(out@ =~= key_src());
    encode_string(&mut out, &e.src);
    push_key_dest(&mut out);
    encode_string(&mut out, &e.dest);
    push_key_body(&mut out);
    encode_body(&mut out, &e.body);
    out.push(125);
    assert(out@ =~= enc_envelope(e@));
    out
}

fn push_key_dest(out: &mut Vec<u8>)
    ensures
        final(out)@ == old(out)@ + key_dest(),
{
    out.push(44);
    out.push(34);
    out.push(100);
    out.push(101);
    out.push(115);
    out.push(116);
    out.push(34);
    out.push(58);
    assert(out@ =~= old(out)@ + key_dest());
}

fn push_key_body(out: &mut Vec<u8>)
    ensures
        final(out)@ == old(out)@ + key_body(),
{
    out.push(44);
    out.push(34);
    out.push(98);
    out.push(111);
    out.push(100);
    out.push(121);
    out.push(34);
    out.push(58);
    assert(out@ =~= old(out)@ + key_body());
}

} // verus!
