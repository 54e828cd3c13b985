//! The protocol's laws, stated over the spec functions and proved.

use vstd::prelude::*;
use crate::enc::enc_content;
use crate::enc::enc_list;
use crate::enc::enc_list_items;
use crate::enc::enc_string;
use crate::enc::enc_u64;
use crate::enc::esc_byte;
use crate::enc::hex_digit;
use crate::msg::BodyV;
use crate::msg::EnvelopeV;
use crate::msg::ParseError;
use crate::node::spec_process_line;
use crate::node::spec_response;
use crate::node::spec_run;
use crate::enc::enc_body;
use crate::enc::enc_envelope;
use crate::enc::key_src;
use crate::enc::tag_echo;
use crate::enc::tag_echo_ok;
use crate::enc::tag_init;
use crate::enc::tag_init_ok;
use crate::parse::digit_run;
use crate::parse::digits_val;
use crate::parse::fname_body;
use crate::parse::fname_dest;
use crate::parse::fname_echo;
use crate::parse::fname_in_reply_to;
use crate::parse::fname_msg_id;
use crate::parse::fname_node_id;
use crate::parse::fname_node_ids;
use crate::parse::fname_src;
use crate::parse::fname_type;
use crate::parse::is_digit;
use crate::parse::is_ws;
use crate::parse::no_body_fields;
use crate::parse::no_env_fields;
use crate::parse::parse_body;
use crate::parse::parse_body_fields;
use crate::parse::parse_body_value;
use crate::parse::parse_env_fields;
use crate::parse::parse_env_obj;
use crate::parse::parse_env_value;
use crate::parse::parse_envelope_text;
use crate::parse::parse_list;
use crate::parse::parse_list_items;
use crate::parse::parse_string_rest;
use crate::parse::parse_u64;
use crate::parse::skip_ws;
use crate::parse::body_of_fields;
use crate::parse::env_of_fields;
use crate::parse::BodyFields;
use crate::parse::EnvFields;

verus! {

/// Bytes that a JSON string holds without any escape.
pub open spec fn raw_bytes(x: Seq<u8>) -> bool {
    forall|i: int| 0 <= i < x.len() ==> 32 <= #[trigger] x[i] && x[i] != 34 && x[i] != 92
}

/// Raw bytes encode as themselves.
proof fn lemma_enc_content_raw(x: Seq<u8>)
    requires
        raw_bytes(x),
    ensures
        enc_content(x) == x,
    decreases x.len(),
{
    if x.len() > 0 {
        assert(esc_byte(x[0]) =~= seq![x[0]]);
        lemma_enc_content_raw(x.skip(1));
        assert(enc_content(x) =~= x);
    } else {
        assert(enc_content(x) =~= x);
    }
}

/// Decoding a hexadecimal digit undoes encoding one.
proof fn lemma_hex_round(n: u8)
    requires
        n < 16,
    ensures
        crate::parse::hex_val(hex_digit(n)) == n,
{
}

/// Parsing string content undoes encoding it: the escaped content
/// followed by the closing quote and anything after parses back to the
/// content, leaving exactly that remainder.
proof fn lemma_parse_enc_content(x: Seq<u8>, rest: Seq<u8>)
    ensures
        parse_string_rest(enc_content(x) + seq![34u8] + rest) == Some((x, rest)),
    decreases x.len(),
{
    let s = enc_content(x) + seq![34u8] + rest;
    if x.len() == 0 {
        assert(s =~= seq![34u8] + rest);
        assert(s[0] == 34);
        assert(s.skip(1) =~= rest);
        assert(x =~= Seq::<u8>::empty());
    } else {
        let b = x[0];
        let t = enc_content(x.skip(1)) + seq![34u8] + rest;
        assert(s =~= esc_byte(b) + t);
        lemma_parse_enc_content(x.skip(1), rest);
        if b == 34 || b == 92 || b == 8 || b == 9 || b == 10 || b == 12 || b == 13 {
            let e = esc_byte(b)[1];
            assert(s[0] == 92);
            assert(s[1] == e);
            assert(s.len() >= 2);
            assert(crate::parse::is_short_escape(e));
            assert(crate::parse::unescape(e) == b);
            assert(s.skip(2) =~= t);
            assert(seq![b] + x.skip(1) =~= x);
        } else if b < 32 {
            assert(esc_byte(b) =~= seq![92u8, 117u8, 48u8, 48u8, hex_digit(b / 16), hex_digit(
                b % 16,
            )]);
            assert(s[0] == 92);
            assert(s[1] == 117);
            assert(s[2] == 48);
            assert(s[3] == 48);
            assert(s[4] == hex_digit(b / 16));
            assert(s[5] == hex_digit(b % 16));
            assert(s.len() >= 6);
            assert(crate::parse::hex_val(48) == 0);
            lemma_hex_round(b / 16);
            lemma_hex_round(b % 16);
            let cp = crate::parse::hex_val(s[2]) * 4096 + crate::parse::hex_val(s[3]) * 256
                + crate::parse::hex_val(s[4]) * 16 + crate::parse::hex_val(s[5]);
            assert(cp == (b / 16) * 16 + b % 16);
            assert(cp == b);
            assert(s.skip(6) =~= t);
            assert(crate::parse::utf8_of(cp) =~= seq![b]);
            assert(seq![b] + x.skip(1) =~= x);
        } else {
            assert(esc_byte(b) =~= seq![b]);
            assert(s[0] == b);
            assert(s.skip(1) =~= t);
            assert(seq![b] + x.skip(1) =~= x);
        }
    }
}

/// A whole encoded JSON string parses back to its content.
proof fn lemma_parse_enc_string(x: Seq<u8>, rest: Seq<u8>)
    ensures
        (enc_string(x) + rest).len() > 0,
        (enc_string(x) + rest)[0] == 34,
        parse_string_rest((enc_string(x) + rest).skip(1)) == Some((x, rest)),
{
    assert((enc_string(x) + rest).skip(1) =~= enc_content(x) + seq![34u8] + rest);
    lemma_parse_enc_content(x, rest);
}

/// The decimal digits of a number: at least one byte, all digits, and no
/// useless leading zero.
proof fn lemma_enc_u64_shape(n: nat)
    ensures
        enc_u64(n).len() >= 1,
        forall|i: int| 0 <= i < enc_u64(n).len() ==> is_digit(#[trigger] enc_u64(n)[i]),
        n >= 1 ==> enc_u64(n)[0] != 48,
        n < 10 ==> enc_u64(n) == seq![(48 + n) as u8],
    decreases n,
{
    if n >= 10 {
        lemma_enc_u64_shape(n / 10);
        assert(enc_u64(n) =~= enc_u64(n / 10) + seq![(48 + n % 10) as u8]);
        assert(enc_u64(n)[0] == enc_u64(n / 10)[0]);
    }
}

/// Evaluating the digits of a number gives the number back.
proof fn lemma_digits_val_enc(n: nat)
    ensures
        digits_val(enc_u64(n)) == n,
    decreases n,
{
    if n < 10 {
        assert(enc_u64(n).drop_last() =~= Seq::<u8>::empty());
        assert(enc_u64(n).last() == (48 + n) as u8);
        assert(enc_u64(n).last() - 48 == n);
        assert(digits_val(enc_u64(n)) == (digits_val(Seq::<u8>::empty()) * 10 + n) as nat);
    } else {
        lemma_digits_val_enc(n / 10);
        assert(enc_u64(n) =~= enc_u64(n / 10) + seq![(48 + n % 10) as u8]);
        assert(enc_u64(n).drop_last() =~= enc_u64(n / 10));
        assert(enc_u64(n).last() == (48 + n % 10) as u8);
        assert(enc_u64(n).last() - 48 == n % 10);
        assert(digits_val(enc_u64(n)) == ((n / 10) * 10 + n % 10) as nat);
        assert(n == (n / 10) * 10 + n % 10);
    }
}

/// A run of digits followed by a non-digit is scanned in full and no
/// further.
proof fn lemma_digit_run_concat(ds: Seq<u8>, rest: Seq<u8>)
    requires
        forall|i: int| 0 <= i < ds.len() ==> is_digit(#[trigger] ds[i]),
        rest.len() == 0 || !is_digit(rest[0]),
    ensures
        digit_run(ds + rest) == ds.len(),
    decreases ds.len(),
{
    if ds.len() == 0 {
        assert(ds + rest =~= rest);
    } else {
        assert((ds + rest)[0] == ds[0]);
        assert((ds + rest).skip(1) =~= ds.skip(1) + rest);
        lemma_digit_run_concat(ds.skip(1), rest);
    }
}

/// Parsing a number undoes encoding it, provided what follows is no
/// digit.
proof fn lemma_parse_enc_u64(v: u64, rest: Seq<u8>)
    requires
        rest.len() == 0 || !is_digit(rest[0]),
    ensures
        parse_u64(enc_u64(v as nat) + rest) == Some((v, rest)),
{
    let ds = enc_u64(v as nat);
    let s = ds + rest;
    lemma_enc_u64_shape(v as nat);
    lemma_digit_run_concat(ds, rest);
    lemma_digits_val_enc(v as nat);
    assert(digit_run(s) == ds.len());
    assert(s.take(ds.len() as int) =~= ds);
    assert(s.skip(ds.len() as int) =~= rest);
    assert(s[0] == ds[0]);
    if v == 0 {
        assert(ds.len() == 1);
    } else {
        assert(s[0] != 48);
    }
}

/// Parsing the elements of an encoded non-empty array of strings undoes
/// encoding them.
proof fn lemma_parse_enc_list_items(l: Seq<Seq<u8>>, rest: Seq<u8>)
    requires
        l.len() >= 1,
    ensures
        parse_list_items(enc_list_items(l) + seq![93u8] + rest) == Some((l, rest)),
    decreases l.len(),
{
    let s = enc_list_items(l) + seq![93u8] + rest;
    if l.len() == 1 {
        let after = seq![93u8] + rest;
        assert(s =~= enc_string(l[0]) + after);
        lemma_parse_enc_string(l[0], after);
        assert(s[0] == 34);
        assert(s.skip(1) =~= (enc_string(l[0]) + after).skip(1));
        assert(after[0] == 93);
        assert(!is_ws(after[0]));
        assert(skip_ws(after) == after);
        assert(after.skip(1) =~= rest);
        assert(seq![l[0]] =~= l);
    } else {
        let tail = seq![44u8] + (enc_list_items(l.skip(1)) + seq![93u8] + rest);
        assert(s =~= enc_string(l[0]) + tail);
        lemma_parse_enc_string(l[0], tail);
        assert(s[0] == 34);
        assert(s.skip(1) =~= (enc_string(l[0]) + tail).skip(1));
        assert(tail[0] == 44);
        assert(!is_ws(tail[0]));
        assert(skip_ws(tail) == tail);
        let next = enc_list_items(l.skip(1)) + seq![93u8] + rest;
        assert(tail.skip(1) =~= next);
        assert(next[0] == 34) by {
            assert(next[0] == enc_list_items(l.skip(1))[0]);
            assert(enc_list_items(l.skip(1))[0] == enc_string(l.skip(1)[0])[0]);
            assert(enc_string(l.skip(1)[0])[0] == 34);
        };
        assert(!is_ws(next[0]));
        assert(skip_ws(next) == next);
        lemma_parse_enc_list_items(l.skip(1), rest);
        assert(seq![l[0]] + l.skip(1) =~= l);
    }
}

/// Parsing an encoded array of strings undoes encoding it.
proof fn lemma_parse_enc_list(l: Seq<Seq<u8>>, rest: Seq<u8>)
    ensures
        (enc_list(l) + rest).len() > 0,
        (enc_list(l) + rest)[0] == 91,
        parse_list(enc_list(l) + rest) == Some((l, rest)),
{
    let s = enc_list(l) + rest;
    assert(s[0] == 91);
    if l.len() == 0 {
        assert(s.skip(1) =~= seq![93u8] + rest);
        assert((seq![93u8] + rest)[0] == 93);
        assert(!is_ws(93u8));
        assert(skip_ws(seq![93u8] + rest) == seq![93u8] + rest);
        assert((seq![93u8] + rest).skip(1) =~= rest);
        assert(l =~= Seq::<Seq<u8>>::empty());
    } else {
        let items = enc_list_items(l) + seq![93u8] + rest;
        assert(s.skip(1) =~= items);
        assert(items[0] == enc_list_items(l)[0]);
        assert(enc_list_items(l)[0] == enc_string(l[0])[0]);
        assert(items[0] == 34);
        assert(!is_ws(items[0]));
        assert(skip_ws(items) == items);
        lemma_parse_enc_list_items(l, rest);
    }
}

/// One field of an encoded body object: a raw name in quotes, a colon,
/// an already-parsed value, then a comma or the closing brace.
proof fn lemma_body_fields_step(
    s: Seq<u8>,
    name: Seq<u8>,
    venc: Seq<u8>,
    tail: Seq<u8>,
    acc: BodyFields,
    acc2: BodyFields,
)
    requires
        s == seq![34u8] + name + seq![34u8, 58u8] + venc + tail,
        raw_bytes(name),
        parse_body_value(venc + tail, name, acc) == Some((acc2, tail)),
        venc.len() > 0,
        !is_ws(venc[0]),
        tail.len() > 0,
        tail[0] == 44 || tail[0] == 125,
    ensures
        parse_body_fields(s, acc) == (if tail[0] == 44 {
            parse_body_fields(skip_ws(tail.skip(1)), acc2)
        } else {
            Some((acc2, tail.skip(1)))
        }),
{
    let after = seq![58u8] + (venc + tail);
    assert(s.len() > 0);
    assert(s[0] == 34);
    lemma_enc_content_raw(name);
    assert(s.skip(1) =~= enc_content(name) + seq![34u8] + after);
    lemma_parse_enc_content(name, after);
    assert(after[0] == 58);
    assert(!is_ws(after[0]));
    assert(skip_ws(after) == after);
    assert(after.skip(1) =~= venc + tail);
    assert((venc + tail)[0] == venc[0]);
    assert(skip_ws(venc + tail) == venc + tail);
    assert(skip_ws(tail) == tail);
}

/// One field of an encoded envelope object, in the same shape.
proof fn lemma_env_fields_step(
    s: Seq<u8>,
    name: Seq<u8>,
    venc: Seq<u8>,
    tail: Seq<u8>,
    acc: EnvFields,
    acc2: EnvFields,
)
    requires
        s == seq![34u8] + name + seq![34u8, 58u8] + venc + tail,
        raw_bytes(name),
        parse_env_value(venc + tail, name, acc) == Some((acc2, tail)),
        venc.len() > 0,
        !is_ws(venc[0]),
        tail.len() > 0,
        tail[0] == 44 || tail[0] == 125,
    ensures
        parse_env_fields(s, acc) == (if tail[0] == 44 {
            parse_env_fields(skip_ws(tail.skip(1)), acc2)
        } else {
            Some((acc2, tail.skip(1)))
        }),
{
    let after = seq![58u8] + (venc + tail);
    assert(s.len() > 0);
    assert(s[0] == 34);
    lemma_enc_content_raw(name);
    assert(s.skip(1) =~= enc_content(name) + seq![34u8] + after);
    lemma_parse_enc_content(name, after);
    assert(after[0] == 58);
    assert(!is_ws(after[0]));
    assert(skip_ws(after) == after);
    assert(after.skip(1) =~= venc + tail);
    assert((venc + tail)[0] == venc[0]);
    assert(skip_ws(venc + tail) == venc + tail);
    assert(skip_ws(tail) == tail);
}

/// The field names and tag values hold no byte a JSON string escapes.
proof fn lemma_names_raw()
    ensures
        raw_bytes(fname_type()),
        raw_bytes(fname_msg_id()),
        raw_bytes(fname_node_id()),
        raw_bytes(fname_node_ids()),
        raw_bytes(fname_in_reply_to()),
        raw_bytes(fname_echo()),
        raw_bytes(fname_src()),
        raw_bytes(fname_dest()),
        raw_bytes(fname_body()),
        raw_bytes(tag_init()),
        raw_bytes(tag_init_ok()),
        raw_bytes(tag_echo()),
        raw_bytes(tag_echo_ok()),
{
}

/// The recorded value of a parsed `type` field.
proof fn lemma_value_type(tagv: Seq<u8>, tail: Seq<u8>, acc: BodyFields)
    requires
        acc.tag is None,
    ensures
        parse_body_value(enc_string(tagv) + tail, fname_type(), acc) == Some(
            (BodyFields { tag: Some(tagv), ..acc }, tail),
        ),
        enc_string(tagv).len() > 0,
        !is_ws(enc_string(tagv)[0]),
{
    lemma_parse_enc_string(tagv, tail);
}

/// The recorded value of a parsed `msg_id` field.
proof fn lemma_value_msg_id(v: u64, tail: Seq<u8>, acc: BodyFields)
    requires
        acc.msg_id is None,
        tail.len() == 0 || !is_digit(tail[0]),
    ensures
        parse_body_value(enc_u64(v as nat) + tail, fname_msg_id(), acc) == Some(
            (BodyFields { msg_id: Some(v), ..acc }, tail),
        ),
        enc_u64(v as nat).len() > 0,
        !is_ws(enc_u64(v as nat)[0]),
{
    assert(fname_msg_id() != fname_type()) by {
        assert(fname_msg_id().len() == 6 && fname_type().len() == 4);
    };
    lemma_parse_enc_u64(v, tail);
    lemma_enc_u64_shape(v as nat);
}

/// The recorded value of a parsed `node_id` field.
proof fn lemma_value_node_id(v: Seq<u8>, tail: Seq<u8>, acc: BodyFields)
    requires
        acc.node_id is None,
    ensures
        parse_body_value(enc_string(v) + tail, fname_node_id(), acc) == Some(
            (BodyFields { node_id: Some(v), ..acc }, tail),
        ),
        enc_string(v).len() > 0,
        !is_ws(enc_string(v)[0]),
{
    assert(fname_node_id() != fname_type()) by {
        assert(fname_node_id().len() == 7 && fname_type().len() == 4);
    };
    assert(fname_node_id() != fname_msg_id()) by {
        assert(fname_node_id().len() == 7 && fname_msg_id().len() == 6);
    };
    lemma_parse_enc_string(v, tail);
}

/// The recorded value of a parsed `node_ids` field.
proof fn lemma_value_node_ids(v: Seq<Seq<u8>>, tail: Seq<u8>, acc: BodyFields)
    requires
        acc.node_ids is None,
    ensures
        parse_body_value(enc_list(v) + tail, fname_node_ids(), acc) == Some(
            (BodyFields { node_ids: Some(v), ..acc }, tail),
        ),
        enc_list(v).len() > 0,
        !is_ws(enc_list(v)[0]),
{
    assert(fname_node_ids() != fname_type()) by {
        assert(fname_node_ids().len() == 8 && fname_type().len() == 4);
    };
    assert(fname_node_ids() != fname_msg_id()) by {
        assert(fname_node_ids().len() == 8 && fname_msg_id().len() == 6);
    };
    assert(fname_node_ids() != fname_node_id()) by {
        assert(fname_node_ids().len() == 8 && fname_node_id().len() == 7);
    };
    lemma_parse_enc_list(v, tail);
    assert((enc_list(v) + tail)[0] == enc_list(v)[0]);
}

/// The recorded value of a parsed `in_reply_to` field.
proof fn lemma_value_in_reply_to(v: u64, tail: Seq<u8>, acc: BodyFields)
    requires
        acc.in_reply_to is None,
        tail.len() == 0 || !is_digit(tail[0]),
    ensures
        parse_body_value(enc_u64(v as nat) + tail, fname_in_reply_to(), acc) == Some(
            (BodyFields { in_reply_to: Some(v), ..acc }, tail),
        ),
        enc_u64(v as nat).len() > 0,
        !is_ws(enc_u64(v as nat)[0]),
{
    assert(fname_in_reply_to() != fname_type()) by {
        assert(fname_in_reply_to().len() == 11 && fname_type().len() == 4);
    };
    assert(fname_in_reply_to() != fname_msg_id()) by {
        assert(fname_in_reply_to().len() == 11 && fname_msg_id().len() == 6);
    };
    assert(fname_in_reply_to() != fname_node_id()) by {
        assert(fname_in_reply_to().len() == 11 && fname_node_id().len() == 7);
    };
    assert(fname_in_reply_to() != fname_node_ids()) by {
        assert(fname_in_reply_to().len() == 11 && fname_node_ids().len() == 8);
    };
    lemma_parse_enc_u64(v, tail);
    lemma_enc_u64_shape(v as nat);
}

/// The recorded value of a parsed `echo` field.
proof fn lemma_value_echo(v: Seq<u8>, tail: Seq<u8>, acc: BodyFields)
    requires
        acc.echo is None,
    ensures
        parse_body_value(enc_string(v) + tail, fname_echo(), acc) == Some(
            (BodyFields { echo: Some(v), ..acc }, tail),
        ),
        enc_string(v).len() > 0,
        !is_ws(enc_string(v)[0]),
{
    assert(fname_echo() != fname_type()) by {
        assert(fname_echo()[0] == 101 && fname_type()[0] == 116);
    };
    assert(fname_echo() != fname_msg_id()) by {
        assert(fname_echo().len() == 4 && fname_msg_id().len() == 6);
    };
    assert(fname_echo() != fname_node_id()) by {
        assert(fname_echo().len() == 4 && fname_node_id().len() == 7);
    };
    assert(fname_echo() != fname_node_ids()) by {
        assert(fname_echo().len() == 4 && fname_node_ids().len() == 8);
    };
    assert(fname_echo() != fname_in_reply_to()) by {
        assert(fname_echo().len() == 4 && fname_in_reply_to().len() == 11);
    };
    lemma_parse_enc_string(v, tail);
}

/// Completed fields tagged `init` denote an `Init` body.
proof fn lemma_fields_init(acc: BodyFields)
    requires
        acc.tag == Some(tag_init()),
        acc.msg_id is Some,
        acc.node_id is Some,
        acc.node_ids is Some,
    ensures
        body_of_fields(acc) == Some(BodyV::Init {
            msg_id: acc.msg_id->Some_0,
            node_id: acc.node_id->Some_0,
            node_ids: acc.node_ids->Some_0,
        }),
{
}

/// Completed fields tagged `init_ok` denote an `InitOk` body.
proof fn lemma_fields_init_ok(acc: BodyFields)
    requires
        acc.tag == Some(tag_init_ok()),
        acc.in_reply_to is Some,
    ensures
        body_of_fields(acc) == Some(BodyV::InitOk { in_reply_to: acc.in_reply_to->Some_0 }),
{
    assert(tag_init_ok() != tag_init()) by {
        assert(tag_init_ok().len() == 7 && tag_init().len() == 4);
    };
}

/// Completed fields tagged `echo` denote an `Echo` body.
proof fn lemma_fields_echo(acc: BodyFields)
    requires
        acc.tag == Some(tag_echo()),
        acc.msg_id is Some,
        acc.echo is Some,
    ensures
        body_of_fields(acc) == Some(BodyV::Echo {
            msg_id: acc.msg_id->Some_0,
            echo: acc.echo->Some_0,
        }),
{
    assert(tag_echo() != tag_init()) by {
        assert(tag_echo()[0] == 101 && tag_init()[0] == 105);
    };
    assert(tag_echo() != tag_init_ok()) by {
        assert(tag_echo().len() == 4 && tag_init_ok().len() == 7);
    };
}

/// Completed fields tagged `echo_ok` denote an `EchoOk` body.
proof fn lemma_fields_echo_ok(acc: BodyFields)
    requires
        acc.tag == Some(tag_echo_ok()),
        acc.msg_id is Some,
        acc.in_reply_to is Some,
        acc.echo is Some,
    ensures
        body_of_fields(acc) == Some(BodyV::EchoOk {
            msg_id: acc.msg_id->Some_0,
            in_reply_to: acc.in_reply_to->Some_0,
            echo: acc.echo->Some_0,
        }),
{
    assert(tag_echo_ok() != tag_init()) by {
        assert(tag_echo_ok().len() == 7 && tag_init().len() == 4);
    };
    assert(tag_echo_ok() != tag_init_ok()) by {
        assert(tag_echo_ok()[0] == 101 && tag_init_ok()[0] == 105);
    };
    assert(tag_echo_ok() != tag_echo()) by {
        assert(tag_echo_ok().len() == 7 && tag_echo().len() == 4);
    };
}

/// Parsing an encoded `init` body undoes encoding it.
#[verifier::rlimit(100)]
#[verifier::spinoff_prover]
proof fn lemma_parse_enc_body_init(msg_id: u64, node_id: Seq<u8>, node_ids: Seq<Seq<u8>>, rest: Seq<u8>)
    ensures
        parse_body(enc_body(BodyV::Init { msg_id, node_id, node_ids }) + rest) == Some(
            (BodyV::Init { msg_id, node_id, node_ids }, rest),
        ),
{
    let b = BodyV::Init { msg_id, node_id, node_ids };
    lemma_names_raw();
    lemma_enc_content_raw(tag_init());
    let t4 = seq![125u8] + rest;
    let f4 = seq![34u8] + fname_node_ids() + seq![34u8, 58u8] + enc_list(node_ids) + t4;
    let t3 = seq![44u8] + f4;
    let f3 = seq![34u8] + fname_node_id() + seq![34u8, 58u8] + enc_string(node_id) + t3;
    let t2 = seq![44u8] + f3;
    let f2 = seq![34u8] + fname_msg_id() + seq![34u8, 58u8] + enc_u64(msg_id as nat) + t2;
    let t1 = seq![44u8] + f2;
    let f1 = seq![34u8] + fname_type() + seq![34u8, 58u8] + enc_string(tag_init()) + t1;
    let s = enc_body(b) + rest;
    assert(enc_string(tag_init()) =~= seq![34u8] + tag_init() + seq![34u8]);
    assert(s =~= seq![123u8] + f1);
    assert(s[0] == 123);
    assert(s.skip(1) =~= f1);
    assert(f1[0] == 34);
    assert(skip_ws(f1) == f1);
    let acc0 = no_body_fields();
    let acc1 = BodyFields { tag: Some(tag_init()), ..acc0 };
    let acc2 = BodyFields { msg_id: Some(msg_id), ..acc1 };
    let acc3 = BodyFields { node_id: Some(node_id), ..acc2 };
    let acc4 = BodyFields { node_ids: Some(node_ids), ..acc3 };
    lemma_value_type(tag_init(), t1, acc0);
    lemma_body_fields_step(f1, fname_type(), enc_string(tag_init()), t1, acc0, acc1);
    assert(t1.skip(1) =~= f2);
    assert(f2[0] == 34);
    assert(skip_ws(t1.skip(1)) == f2);
    lemma_value_msg_id(msg_id, t2, acc1);
    lemma_body_fields_step(f2, fname_msg_id(), enc_u64(msg_id as nat), t2, acc1, acc2);
    assert(t2.skip(1) =~= f3);
    assert(f3[0] == 34);
    assert(skip_ws(t2.skip(1)) == f3);
    lemma_value_node_id(node_id, t3, acc2);
    lemma_body_fields_step(f3, fname_node_id(), enc_string(node_id), t3, acc2, acc3);
    assert(t3.skip(1) =~= f4);
    assert(f4[0] == 34);
    assert(skip_ws(t3.skip(1)) == f4);
    lemma_value_node_ids(node_ids, t4, acc3);
    lemma_body_fields_step(f4, fname_node_ids(), enc_list(node_ids), t4, acc3, acc4);
    assert(t4.skip(1) =~= rest);
    assert(parse_body_fields(f1, acc0) == Some((acc4, rest)));
    lemma_fields_init(acc4);
    assert(parse_body(s) == Some((b, rest)));
}

/// Parsing an encoded `init_ok` body undoes encoding it.
#[verifier::rlimit(100)]
#[verifier::spinoff_prover]
proof fn lemma_parse_enc_body_init_ok(in_reply_to: u64, rest: Seq<u8>)
    ensures
        parse_body(enc_body(BodyV::InitOk { in_reply_to }) + rest) == Some(
            (BodyV::InitOk { in_reply_to }, rest),
        ),
{
    let b = BodyV::InitOk { in_reply_to };
    lemma_names_raw();
    lemma_enc_content_raw(tag_init_ok());
    let t2 = seq![125u8] + rest;
    let f2 = seq![34u8] + fname_in_reply_to() + seq![34u8, 58u8] + enc_u64(in_reply_to as nat)
        + t2;
    let t1 = seq![44u8] + f2;
    let f1 = seq![34u8] + fname_type() + seq![34u8, 58u8] + enc_string(tag_init_ok()) + t1;
    let s = enc_body(b) + rest;
    assert(enc_string(tag_init_ok()) =~= seq![34u8] + tag_init_ok() + seq![34u8]);
    assert(s =~= seq![123u8] + f1);
    assert(s[0] == 123);
    assert(s.skip(1) =~= f1);
    assert(f1[0] == 34);
    assert(skip_ws(f1) == f1);
    let acc0 = no_body_fields();
    let acc1 = BodyFields { tag: Some(tag_init_ok()), ..acc0 };
    let acc2 = BodyFields { in_reply_to: Some(in_reply_to), ..acc1 };
    lemma_value_type(tag_init_ok(), t1, acc0);
    lemma_body_fields_step(f1, fname_type(), enc_string(tag_init_ok()), t1, acc0, acc1);
    assert(t1.skip(1) =~= f2);
    assert(f2[0] == 34);
    assert(skip_ws(t1.skip(1)) == f2);
    assert(!is_digit(125));
    lemma_value_in_reply_to(in_reply_to, t2, acc1);
    lemma_body_fields_step(f2, fname_in_reply_to(), enc_u64(in_reply_to as nat), t2, acc1, acc2);
    assert(t2.skip(1) =~= rest);
    assert(parse_body_fields(f1, acc0) == Some((acc2, rest)));
    lemma_fields_init_ok(acc2);
    assert(parse_body(s) == Some((b, rest)));
}

/// Parsing an encoded `echo` body undoes encoding it.
#[verifier::rlimit(100)]
#[verifier::spinoff_prover]
proof fn lemma_parse_enc_body_echo(msg_id: u64, echo: Seq<u8>, rest: Seq<u8>)
    ensures
        parse_body(enc_body(BodyV::Echo { msg_id, echo }) + rest) == Some(
            (BodyV::Echo { msg_id, echo }, rest),
        ),
{
    let b = BodyV::Echo { msg_id, echo };
    lemma_names_raw();
    lemma_enc_content_raw(tag_echo());
    let t3 = seq![125u8] + rest;
    let f3 = seq![34u8] + fname_echo() + seq![34u8, 58u8] + enc_string(echo) + t3;
    let t2 = seq![44u8] + f3;
    let f2 = seq![34u8] + fname_msg_id() + seq![34u8, 58u8] + enc_u64(msg_id as nat) + t2;
    let t1 = seq![44u8] + f2;
    let f1 = seq![34u8] + fname_type() + seq![34u8, 58u8] + enc_string(tag_echo()) + t1;
    let s = enc_body(b) + rest;
    assert(enc_string(tag_echo()) =~= seq![34u8] + tag_echo() + seq![34u8]);
    assert(s =~= seq![123u8] + f1);
    assert(s[0] == 123);
    assert(s.skip(1) =~= f1);
    assert(f1[0] == 34);
    assert(skip_ws(f1) == f1);
    let acc0 = no_body_fields();
    let acc1 = BodyFields { tag: Some(tag_echo()), ..acc0 };
    let acc2 = BodyFields { msg_id: Some(msg_id), ..acc1 };
    let acc3 = BodyFields { echo: Some(echo), ..acc2 };
    lemma_value_type(tag_echo(), t1, acc0);
    lemma_body_fields_step(f1, fname_type(), enc_string(tag_echo()), t1, acc0, acc1);
    assert(t1.skip(1) =~= f2);
    assert(f2[0] == 34);
    assert(skip_ws(t1.skip(1)) == f2);
    lemma_value_msg_id(msg_id, t2, acc1);
    lemma_body_fields_step(f2, fname_msg_id(), enc_u64(msg_id as nat), t2, acc1, acc2);
    assert(t2.skip(1) =~= f3);
    assert(f3[0] == 34);
    assert(skip_ws(t2.skip(1)) == f3);
    lemma_value_echo(echo, t3, acc2);
    lemma_body_fields_step(f3, fname_echo(), enc_string(echo), t3, acc2, acc3);
    assert(t3.skip(1) =~= rest);
    assert(parse_body_fields(f1, acc0) == Some((acc3, rest)));
    lemma_fields_echo(acc3);
    assert(parse_body(s) == Some((b, rest)));
}

/// Parsing an encoded `echo_ok` body undoes encoding it.
#[verifier::rlimit(100)]
#[verifier::spinoff_prover]
proof fn lemma_parse_enc_body_echo_ok(msg_id: u64, in_reply_to: u64, echo: Seq<u8>, rest: Seq<u8>)
    ensures
        parse_body(enc_body(BodyV::EchoOk { msg_id, in_reply_to, echo }) + rest) == Some(
            (BodyV::EchoOk { msg_id, in_reply_to, echo }, rest),
        ),
{
    let b = BodyV::EchoOk { msg_id, in_reply_to, echo };
    lemma_names_raw();
    lemma_enc_content_raw(tag_echo_ok());
    let t4 = seq![125u8] + rest;
    let f4 = seq![34u8] + fname_echo() + seq![34u8, 58u8] + enc_string(echo) + t4;
    let t3 = seq![44u8] + f4;
    let f3 = seq![34u8] + fname_in_reply_to() + seq![34u8, 58u8] + enc_u64(in_reply_to as nat)
        + t3;
    let t2 = seq![44u8] + f3;
    let f2 = seq![34u8] + fname_msg_id() + seq![34u8, 58u8] + enc_u64(msg_id as nat) + t2;
    let t1 = seq![44u8] + f2;
    let f1 = seq![34u8] + fname_type() + seq![34u8, 58u8] + enc_string(tag_echo_ok()) + t1;
    let s = enc_body(b) + rest;
    assert(enc_string(tag_echo_ok()) =~= seq![34u8] + tag_echo_ok() + seq![34u8]);
    assert(s =~= seq![123u8] + f1);
    assert(s[0] == 123);
    assert(s.skip(1) =~= f1);
    assert(f1[0] == 34);
    assert(skip_ws(f1) == f1);
    let acc0 = no_body_fields();
    let acc1 = BodyFields { tag: Some(tag_echo_ok()), ..acc0 };
    let acc2 = BodyFields { msg_id: Some(msg_id), ..acc1 };
    let acc3 = BodyFields { in_reply_to: Some(in_reply_to), ..acc2 };
    let acc4 = BodyFields { echo: Some(echo), ..acc3 };
    lemma_value_type(tag_echo_ok(), t1, acc0);
    lemma_body_fields_step(f1, fname_type(), enc_string(tag_echo_ok()), t1, acc0, acc1);
    assert(t1.skip(1) =~= f2);
    assert(f2[0] == 34);
    assert(skip_ws(t1.skip(1)) == f2);
    lemma_value_msg_id(msg_id, t2, acc1);
    lemma_body_fields_step(f2, fname_msg_id(), enc_u64(msg_id as nat), t2, acc1, acc2);
    assert(t2.skip(1) =~= f3);
    assert(f3[0] == 34);
    assert(skip_ws(t2.skip(1)) == f3);
    lemma_value_in_reply_to(in_reply_to, t3, acc2);
    lemma_body_fields_step(f3, fname_in_reply_to(), enc_u64(in_reply_to as nat), t3, acc2, acc3);
    assert(t3.skip(1) =~= f4);
    assert(f4[0] == 34);
    assert(skip_ws(t3.skip(1)) == f4);
    lemma_value_echo(echo, t4, acc3);
    lemma_body_fields_step(f4, fname_echo(), enc_string(echo), t4, acc3, acc4);
    assert(t4.skip(1) =~= rest);
    assert(parse_body_fields(f1, acc0) == Some((acc4, rest)));
    lemma_fields_echo_ok(acc4);
    assert(parse_body(s) == Some((b, rest)));
}

/// Parsing an encoded body of any kind undoes encoding it.
proof fn lemma_parse_enc_body(b: BodyV, rest: Seq<u8>)
    ensures
        parse_body(enc_body(b) + rest) == Some((b, rest)),
        (enc_body(b) + rest)[0] == 123,
        !is_ws((enc_body(b) + rest)[0]),
{
    match b {
        BodyV::Init { msg_id, node_id, node_ids } => {
            lemma_parse_enc_body_init(msg_id, node_id, node_ids, rest);
        },
        BodyV::InitOk { in_reply_to } => {
            lemma_parse_enc_body_init_ok(in_reply_to, rest);
        },
        BodyV::Echo { msg_id, echo } => {
            lemma_parse_enc_body_echo(msg_id, echo, rest);
        },
        BodyV::EchoOk { msg_id, in_reply_to, echo } => {
            lemma_parse_enc_body_echo_ok(msg_id, in_reply_to, echo, rest);
        },
    }
}

/// The recorded value of a parsed `src` field.
proof fn lemma_value_src(v: Seq<u8>, tail: Seq<u8>, acc: EnvFields)
    requires
        acc.src is None,
    ensures
        parse_env_value(enc_string(v) + tail, fname_src(), acc) == Some(
            (EnvFields { src: Some(v), ..acc }, tail),
        ),
        enc_string(v).len() > 0,
        !is_ws(enc_string(v)[0]),
{
    lemma_parse_enc_string(v, tail);
}

/// The recorded value of a parsed `dest` field.
proof fn lemma_value_dest(v: Seq<u8>, tail: Seq<u8>, acc: EnvFields)
    requires
        acc.dest is None,
    ensures
        parse_env_value(enc_string(v) + tail, fname_dest(), acc) == Some(
            (EnvFields { dest: Some(v), ..acc }, tail),
        ),
        enc_string(v).len() > 0,
        !is_ws(enc_string(v)[0]),
{
    assert(fname_dest() != fname_src()) by {
        assert(fname_dest().len() == 4 && fname_src().len() == 3);
    };
    lemma_parse_enc_string(v, tail);
}

/// The recorded value of a parsed `body` field.
#[verifier::rlimit(100)]
#[verifier::spinoff_prover]
proof fn lemma_value_body(b: BodyV, tail: Seq<u8>, acc: EnvFields)
    requires
        acc.body is None,
    ensures
        parse_env_value(enc_body(b) + tail, fname_body(), acc) == Some(
            (EnvFields { body: Some(b), ..acc }, tail),
        ),
        enc_body(b).len() > 0,
        !is_ws(enc_body(b)[0]),
{
    assert(fname_body() != fname_src()) by {
        assert(fname_body().len() == 4 && fname_src().len() == 3);
    };
    assert(fname_body() != fname_dest()) by {
        assert(fname_body()[0] == 98 && fname_dest()[0] == 100);
    };
    lemma_parse_enc_body(b, tail);
    assert(enc_body(b)[0] == 123);
}

/// Parsing an encoded envelope object undoes encoding it.
#[verifier::rlimit(100)]
#[verifier::spinoff_prover]
proof fn lemma_parse_enc_envelope(e: EnvelopeV, rest: Seq<u8>)
    ensures
        parse_env_obj(enc_envelope(e) + rest) == Some((e, rest)),
        (enc_envelope(e) + rest)[0] == 123,
        enc_envelope(e).len() > 0,
        enc_envelope(e)[0] == 123,
{
    lemma_names_raw();
    let t3 = seq![125u8] + rest;
    let f3 = seq![34u8] + fname_body() + seq![34u8, 58u8] + enc_body(e.body) + t3;
    let t2 = seq![44u8] + f3;
    let f2 = seq![34u8] + fname_dest() + seq![34u8, 58u8] + enc_string(e.dest) + t2;
    let t1 = seq![44u8] + f2;
    let f1 = seq![34u8] + fname_src() + seq![34u8, 58u8] + enc_string(e.src) + t1;
    let s = enc_envelope(e) + rest;
    assert(s =~= seq![123u8] + f1);
    assert(s[0] == 123);
    assert(s.skip(1) =~= f1);
    assert(f1[0] == 34);
    assert(skip_ws(f1) == f1);
    let acc0 = no_env_fields();
    let acc1 = EnvFields { src: Some(e.src), ..acc0 };
    let acc2 = EnvFields { dest: Some(e.dest), ..acc1 };
    let acc3 = EnvFields { body: Some(e.body), ..acc2 };
    lemma_value_src(e.src, t1, acc0);
    lemma_env_fields_step(f1, fname_src(), enc_string(e.src), t1, acc0, acc1);
    assert(t1.skip(1) =~= f2);
    assert(f2[0] == 34);
    assert(skip_ws(t1.skip(1)) == f2);
    lemma_value_dest(e.dest, t2, acc1);
    lemma_env_fields_step(f2, fname_dest(), enc_string(e.dest), t2, acc1, acc2);
    assert(t2.skip(1) =~= f3);
    assert(f3[0] == 34);
    assert(skip_ws(t2.skip(1)) == f3);
    lemma_value_body(e.body, t3, acc2);
    lemma_env_fields_step(f3, fname_body(), enc_body(e.body), t3, acc2, acc3);
    assert(t3.skip(1) =~= rest);
    assert(parse_env_fields(f1, acc0) == Some((acc3, rest)));
    assert(env_of_fields(acc3) == Some(e));
    assert(parse_env_obj(s) == Some((e, rest)));
    assert(enc_envelope(e)[0] == key_src()[0]);
}

/// Round-trip: the wire text of any envelope parses back to exactly that
/// envelope, field for field.
pub proof fn lemma_round_trip(e: EnvelopeV)
    ensures
        parse_envelope_text(enc_envelope(e)) == Some(e),
{
    lemma_parse_enc_envelope(e, Seq::<u8>::empty());
    assert(enc_envelope(e) + Seq::<u8>::empty() =~= enc_envelope(e));
    assert(!is_ws(enc_envelope(e)[0]));
    assert(skip_ws(enc_envelope(e)) == enc_envelope(e));
    assert(skip_ws(Seq::<u8>::empty()).len() == 0);
}

/// An `init` request `{src: S, dest: D}` with `msg_id` M is answered by
/// exactly `{src: D, dest: S, body: init_ok{in_reply_to: M}}`; the
/// cluster fields play no part in the response.
pub proof fn lemma_init_response(m: EnvelopeV, msg_id: u64, node_id: Seq<u8>, node_ids: Seq<Seq<u8>>)
    requires
        m.body == (BodyV::Init { msg_id, node_id, node_ids }),
    ensures
        spec_response(m) == Some(
            EnvelopeV { src: m.dest, dest: m.src, body: BodyV::InitOk { in_reply_to: msg_id } },
        ),
{
}

/// An `echo` request `{src: S, dest: D}` with `msg_id` M and payload E is
/// answered by exactly `{src: D, dest: S, body: echo_ok{msg_id: M,
/// in_reply_to: M, echo: E}}`.
pub proof fn lemma_echo_response(m: EnvelopeV, msg_id: u64, echo: Seq<u8>)
    requires
        m.body == (BodyV::Echo { msg_id, echo }),
    ensures
        spec_response(m) == Some(
            EnvelopeV {
                src: m.dest,
                dest: m.src,
                body: BodyV::EchoOk { msg_id: msg_id, in_reply_to: msg_id, echo: echo },
            },
        ),
{
}

/// An acknowledgement line is transparent to a whole run: the node
/// emits the same lines, with the same outcome, as for the remaining
/// input alone.  Receiving `init_ok` or `echo_ok` thus neither produces
/// output nor alters how later lines are processed.
pub proof fn lemma_ack_transparent(line: Seq<u8>, rest: Seq<Seq<u8>>)
    requires
        spec_process_line(line) == Ok::<Option<Seq<u8>>, ParseError>(None),
    ensures
        spec_run(seq![line] + rest) == spec_run(rest),
{
    let lines = seq![line] + rest;
    assert(lines[0] == line);
    assert(lines.skip(1) =~= rest);
}

/// An acknowledgement body (`init_ok` or `echo_ok`) produces no response.
/// Processing is stateless — the node's whole behaviour on a line is a
/// function of that line alone — so a discarded acknowledgement cannot
/// alter how later lines are handled.
pub proof fn lemma_ack_no_response(m: EnvelopeV)
    requires
        m.body is InitOk || m.body is EchoOk,
    ensures
        spec_response(m) is None,
{
}

} // verus!
