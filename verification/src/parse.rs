//! Parsing of one-line JSON text into an envelope.
//!
//! The spec functions define the accepted grammar directly: JSON objects
//! whose fields may come in any order, with arbitrary whitespace between
//! tokens, string escapes (including `\uXXXX` for code points outside the
//! surrogate range), and decimal integers that must fit in a `u64`.  The
//! executable parser is proved to return exactly what the grammar says,
//! on every input.
//!
//! Each parsing function consumes a prefix of its input and hands back
//! the value together with the remaining input.

use vstd::prelude::*;
use crate::enc::tag_echo;
use crate::enc::tag_echo_ok;
use crate::enc::tag_init;
use crate::enc::tag_init_ok;
use crate::msg::Body;
use crate::msg::BodyV;
use crate::msg::Envelope;
use crate::msg::EnvelopeV;
use crate::msg::ParseError;

verus! {

/// The whitespace bytes accepted between JSON tokens.
pub open spec fn is_ws(b: u8) -> bool {
    b == 32 || b == 9 || b == 10 || b == 13
}

/// The input with its leading whitespace removed.
pub open spec fn skip_ws(s: Seq<u8>) -> Seq<u8>
    decreases s.len(),
{
    if s.len() > 0 && is_ws(s[0]) {
        skip_ws(s.skip(1))
    } else {
        s
    }
}

pub proof fn lemma_skip_ws_len(s: Seq<u8>)
    ensures
        skip_ws(s).len() <= s.len(),
    decreases s.len(),
{
    if s.len() > 0 && is_ws(s[0]) {
        lemma_skip_ws_len(s.skip(1));
    }
}

/// The value of a hexadecimal digit byte; 16 for any other byte.
pub open spec fn hex_val(b: u8) -> u8 {
    if 48 <= b && b <= 57 {
        (b - 48) as u8
    } else if 97 <= b && b <= 102 {
        (b - 87) as u8
    } else if 65 <= b && b <= 70 {
        (b - 55) as u8
    } else {
        16
    }
}

/// The UTF-8 bytes of a code point below `0x10000`.
pub open spec fn utf8_of(cp: int) -> Seq<u8> {
    if cp < 0x80 {
        seq![cp as u8]
    } else if cp < 0x800 {
        seq![(192 + cp / 64) as u8, (128 + cp % 64) as u8]
    } else {
        seq![(224 + cp / 4096) as u8, (128 + (cp / 64) % 64) as u8, (128 + cp % 64) as u8]
    }
}

/// The content byte that a short escape letter stands for; 0 for letters
/// that are no short escape.
pub open spec fn unescape(e: u8) -> u8 {
    if e == 34 || e == 92 || e == 47 {
        e
    } else if e == 98 {
        8
    } else if e == 116 {
        9
    } else if e == 110 {
        10
    } else if e == 102 {
        12
    } else if e == 114 {
        13
    } else {
        0
    }
}

/// Whether `e` is one of the one-letter string escapes.
pub open spec fn is_short_escape(e: u8) -> bool {
    e == 34 || e == 92 || e == 47 || e == 98 || e == 116 || e == 110 || e == 102 || e == 114
}

/// Parses string content after an opening quote: the decoded bytes and
/// the input after the closing quote.
pub open spec fn parse_string_rest(s: Seq<u8>) -> Option<(Seq<u8>, Seq<u8>)>
    decreases s.len(),
{
    if s.len() == 0 {
        None
    } else if s[0] == 34 {
        Some((Seq::empty(), s.skip(1)))
    } else if s[0] == 92 {
        if s.len() < 2 {
            None
        } else if is_short_escape(s[1]) {
            match parse_string_rest(s.skip(2)) {
                Some((c, r)) => Some((seq![unescape(s[1])] + c, r)),
                None => None,
            }
        } else if s[1] == 117 {
            if s.len() >= 6 && hex_val(s[2]) < 16 && hex_val(s[3]) < 16 && hex_val(s[4]) < 16
                && hex_val(s[5]) < 16 {
                let cp = hex_val(s[2]) * 4096 + hex_val(s[3]) * 256 + hex_val(s[4]) * 16
                    + hex_val(s[5]);
                if 0xD800 <= cp && cp < 0xE000 {
                    None
                } else {
                    match parse_string_rest(s.skip(6)) {
                        Some((c, r)) => Some((utf8_of(cp) + c, r)),
                        None => None,
                    }
                }
            } else {
                None
            }
        } else {
            None
        }
    } else if s[0] < 32 {
        None
    } else {
        match parse_string_rest(s.skip(1)) {
            Some((c, r)) => Some((seq![s[0]] + c, r)),
            None => None,
        }
    }
}

pub proof fn lemma_parse_string_rest_len(s: Seq<u8>)
    ensures
        match parse_string_rest(s) {
            Some((c, r)) => r.len() < s.len(),
            None => true,
        },
    decreases s.len(),
{
    if s.len() == 0 {
    } else if s[0] == 34 {
    } else if s[0] == 92 {
        if s.len() >= 2 {
            lemma_parse_string_rest_len(s.skip(2));
        }
        if s.len() >= 6 {
            lemma_parse_string_rest_len(s.skip(6));
        }
    } else {
        lemma_parse_string_rest_len(s.skip(1));
    }
}

/// Whether `b` is a decimal digit byte.
pub open spec fn is_digit(b: u8) -> bool {
    48 <= b && b <= 57
}

/// The number of leading decimal digit bytes.
pub open spec fn digit_run(s: Seq<u8>) -> int
    decreases s.len(),
{
    if s.len() > 0 && is_digit(s[0]) {
        1 + digit_run(s.skip(1))
    } else {
        0
    }
}

pub proof fn lemma_digit_run_bounds(s: Seq<u8>)
    ensures
        0 <= digit_run(s) <= s.len(),
    decreases s.len(),
{
    if s.len() > 0 && is_digit(s[0]) {
        lemma_digit_run_bounds(s.skip(1));
    }
}

/// The number written by a sequence of decimal digit bytes.
pub open spec fn digits_val(ds: Seq<u8>) -> nat
    decreases ds.len(),
{
    if ds.len() == 0 {
        0
    } else {
        (digits_val(ds.drop_last()) * 10 + (ds.last() - 48)) as nat
    }
}

/// Parses a JSON unsigned integer: a maximal digit run without a useless
/// leading zero, whose value fits in a `u64`.
pub open spec fn parse_u64(s: Seq<u8>) -> Option<(u64, Seq<u8>)> {
    let n = digit_run(s);
    if n == 0 {
        None
    } else if s[0] == 48 && n > 1 {
        None
    } else if digits_val(s.take(n)) > u64::MAX {
        None
    } else {
        Some((digits_val(s.take(n)) as u64, s.skip(n)))
    }
}

pub proof fn lemma_parse_u64_len(s: Seq<u8>)
    ensures
        match parse_u64(s) {
            Some((v, r)) => r.len() < s.len(),
            None => true,
        },
{
    lemma_digit_run_bounds(s);
}

/// Parses the elements of a non-empty JSON array of strings, positioned
/// at the first element with whitespace already skipped.
pub open spec fn parse_list_items(s: Seq<u8>) -> Option<(Seq<Seq<u8>>, Seq<u8>)>
    decreases s.len(),
{
    if s.len() > 0 && s[0] == 34 {
        match parse_string_rest(s.skip(1)) {
            Some((e, r)) => {
                let r2 = skip_ws(r);
                if r2.len() > 0 && r2[0] == 44 {
                    proof {
                        lemma_parse_string_rest_len(s.skip(1));
                        lemma_skip_ws_len(r);
                        lemma_skip_ws_len(r2.skip(1));
                    }
                    match parse_list_items(skip_ws(r2.skip(1))) {
                        Some((es, r3)) => Some((seq![e] + es, r3)),
                        None => None,
                    }
                } else if r2.len() > 0 && r2[0] == 93 {
                    Some((seq![e], r2.skip(1)))
                } else {
                    None
                }
            },
            None => None,
        }
    } else {
        None
    }
}

pub proof fn lemma_parse_list_items_len(s: Seq<u8>)
    ensures
        match parse_list_items(s) {
            Some((es, r)) => r.len() < s.len(),
            None => true,
        },
    decreases s.len(),
{
    if s.len() > 0 && s[0] == 34 {
        lemma_parse_string_rest_len(s.skip(1));
        match parse_string_rest(s.skip(1)) {
            Some((e, r)) => {
                let r2 = skip_ws(r);
                lemma_skip_ws_len(r);
                if r2.len() > 0 && r2[0] == 44 {
                    lemma_skip_ws_len(r2.skip(1));
                    lemma_parse_list_items_len(skip_ws(r2.skip(1)));
                }
            },
            None => {},
        }
    }
}

/// Parses a whole JSON array of strings.
pub open spec fn parse_list(s: Seq<u8>) -> Option<(Seq<Seq<u8>>, Seq<u8>)> {
    if s.len() > 0 && s[0] == 91 {
        let r1 = skip_ws(s.skip(1));
        if r1.len() > 0 && r1[0] == 93 {
            Some((Seq::empty(), r1.skip(1)))
        } else {
            parse_list_items(r1)
        }
    } else {
        None
    }
}

pub proof fn lemma_parse_list_len(s: Seq<u8>)
    ensures
        match parse_list(s) {
            Some((es, r)) => r.len() < s.len(),
            None => true,
        },
{
    if s.len() > 0 && s[0] == 91 {
        lemma_skip_ws_len(s.skip(1));
        lemma_parse_list_items_len(skip_ws(s.skip(1)));
    }
}

/// `type`
pub open spec fn fname_type() -> Seq<u8> {
    seq![116u8, 121u8, 112u8, 101u8]
}

/// `msg_id`
pub open spec fn fname_msg_id() -> Seq<u8> {
    seq![109u8, 115u8, 103u8, 95u8, 105u8, 100u8]
}

/// `node_id`
pub open spec fn fname_node_id() -> Seq<u8> {
    seq![110u8, 111u8, 100u8, 101u8, 95u8, 105u8, 100u8]
}

/// `node_ids`
pub open spec fn fname_node_ids() -> Seq<u8> {
    seq![110u8, 111u8, 100u8, 101u8, 95u8, 105u8, 100u8, 115u8]
}

/// `in_reply_to`
pub open spec fn fname_in_reply_to() -> Seq<u8> {
    seq![105u8, 110u8, 95u8, 114u8, 101u8, 112u8, 108u8, 121u8, 95u8, 116u8, 111u8]
}

/// `echo`
pub open spec fn fname_echo() -> Seq<u8> {
    seq![101u8, 99u8, 104u8, 111u8]
}

/// `src`
pub open spec fn fname_src() -> Seq<u8> {
    seq![115u8, 114u8, 99u8]
}

/// `dest`
pub open spec fn fname_dest() -> Seq<u8> {
    seq![100u8, 101u8, 115u8, 116u8]
}

/// `body`
pub open spec fn fname_body() -> Seq<u8> {
    seq![98u8, 111u8, 100u8, 121u8]
}

/// The fields of a body object gathered while parsing, each at most once.
pub struct BodyFields {
    pub tag: Option<Seq<u8>>,
    pub msg_id: Option<u64>,
    pub node_id: Option<Seq<u8>>,
    pub node_ids: Option<Seq<Seq<u8>>>,
    pub in_reply_to: Option<u64>,
    pub echo: Option<Seq<u8>>,
}

/// No field seen yet.
pub open spec fn no_body_fields() -> BodyFields {
    BodyFields {
        tag: None,
        msg_id: None,
        node_id: None,
        node_ids: None,
        in_reply_to: None,
        echo: None,
    }
}

/// Parses the value of one body field, named `name`, and records it.
/// A duplicate field or a field outside the schema is refused.
pub open spec fn parse_body_value(s: Seq<u8>, name: Seq<u8>, acc: BodyFields) -> Option<
    (BodyFields, Seq<u8>),
> {
    if name == fname_type() {
        if acc.tag is Some {
            None
        } else if s.len() > 0 && s[0] == 34 {
            match parse_string_rest(s.skip(1)) {
                Some((v, r)) => Some((BodyFields { tag: Some(v), ..acc }, r)),
                None => None,
            }
        } else {
            None
        }
    } else if name == fname_msg_id() {
        if acc.msg_id is Some {
            None
        } else {
            match parse_u64(s) {
                Some((v, r)) => Some((BodyFields { msg_id: Some(v), ..acc }, r)),
                None => None,
            }
        }
    } else if name == fname_node_id() {
        if acc.node_id is Some {
            None
        } else if s.len() > 0 && s[0] == 34 {
            match parse_string_rest(s.skip(1)) {
                Some((v, r)) => Some((BodyFields { node_id: Some(v), ..acc }, r)),
                None => None,
            }
        } else {
            None
        }
    } else if name == fname_node_ids() {
        if acc.node_ids is Some {
            None
        } else {
            match parse_list(s) {
                Some((v, r)) => Some((BodyFields { node_ids: Some(v), ..acc }, r)),
                None => None,
            }
        }
    } else if name == fname_in_reply_to() {
        if acc.in_reply_to is Some {
            None
        } else {
            match parse_u64(s) {
                Some((v, r)) => Some((BodyFields { in_reply_to: Some(v), ..acc }, r)),
                None => None,
            }
        }
    } else if name == fname_echo() {
        if acc.echo is Some {
            None
        } else if s.len() > 0 && s[0] == 34 {
            match parse_string_rest(s.skip(1)) {
                Some((v, r)) => Some((BodyFields { echo: Some(v), ..acc }, r)),
                None => None,
            }
        } else {
            None
        }
    } else {
        None
    }
}

pub proof fn lemma_parse_body_value_len(s: Seq<u8>, name: Seq<u8>, acc: BodyFields)
    ensures
        match parse_body_value(s, name, acc) {
            Some((acc2, r)) => r.len() < s.len(),
            None => true,
        },
{
    if s.len() > 0 {
        lemma_parse_string_rest_len(s.skip(1));
    }
    lemma_parse_u64_len(s);
    lemma_parse_list_len(s);
}

/// Parses the fields of a body object, positioned at a field name with
/// whitespace already skipped, up to and including the closing brace.
pub open spec fn parse_body_fields(s: Seq<u8>, acc: BodyFields) -> Option<(BodyFields, Seq<u8>)>
    decreases s.len(),
{
    if s.len() > 0 && s[0] == 34 {
        match parse_string_rest(s.skip(1)) {
            Some((name, r1)) => {
                let r2 = skip_ws(r1);
                if r2.len() > 0 && r2[0] == 58 {
                    let r3 = skip_ws(r2.skip(1));
                    match parse_body_value(r3, name, acc) {
                        Some((acc2, r4)) => {
                            let r5 = skip_ws(r4);
                            if r5.len() > 0 && r5[0] == 44 {
                                proof {
                                    lemma_parse_string_rest_len(s.skip(1));
                                    lemma_skip_ws_len(r1);
                                    lemma_skip_ws_len(r2.skip(1));
                                    lemma_parse_body_value_len(r3, name, acc);
                                    lemma_skip_ws_len(r4);
                                    lemma_skip_ws_len(r5.skip(1));
                                }
                                parse_body_fields(skip_ws(r5.skip(1)), acc2)
                            } else if r5.len() > 0 && r5[0] == 125 {
                                Some((acc2, r5.skip(1)))
                            } else {
                                None
                            }
                        },
                        None => None,
                    }
                } else {
                    None
                }
            },
            None => None,
        }
    } else {
        None
    }
}

/// The body value that a completed set of fields denotes, checked
/// against its tag: the mandatory fields of the tagged kind must all
/// have been seen.
pub open spec fn body_of_fields(f: BodyFields) -> Option<BodyV> {
    match f.tag {
        Some(t) => {
            if t == tag_init() {
                if f.msg_id is Some && f.node_id is Some && f.node_ids is Some {
                    Some(BodyV::Init {
                        msg_id: f.msg_id->Some_0,
                        node_id: f.node_id->Some_0,
                        node_ids: f.node_ids->Some_0,
                    })
                } else {
                    None
                }
            } else if t == tag_init_ok() {
                if f.in_reply_to is Some {
                    Some(BodyV::InitOk { in_reply_to: f.in_reply_to->Some_0 })
                } else {
                    None
                }
            } else if t == tag_echo() {
                if f.msg_id is Some && f.echo is Some {
                    Some(BodyV::Echo { msg_id: f.msg_id->Some_0, echo: f.echo->Some_0 })
                } else {
                    None
                }
            } else if t == tag_echo_ok() {
                if f.msg_id is Some && f.in_reply_to is Some && f.echo is Some {
                    Some(BodyV::EchoOk {
                        msg_id: f.msg_id->Some_0,
                        in_reply_to: f.in_reply_to->Some_0,
                        echo: f.echo->Some_0,
                    })
                } else {
                    None
                }
            } else {
                None
            }
        },
        None => None,
    }
}

/// Parses a body object, brace to brace.
pub open spec fn parse_body(s: Seq<u8>) -> Option<(BodyV, Seq<u8>)> {
    if s.len() > 0 && s[0] == 123 {
        let r1 = skip_ws(s.skip(1));
        let fields = if r1.len() > 0 && r1[0] == 125 {
            Some((no_body_fields(), r1.skip(1)))
        } else {
            parse_body_fields(r1, no_body_fields())
        };
        match fields {
            Some((f, r2)) => match body_of_fields(f) {
                Some(b) => Some((b, r2)),
                None => None,
            },
            None => None,
        }
    } else {
        None
    }
}

pub proof fn lemma_parse_body_fields_len(s: Seq<u8>, acc: BodyFields)
    ensures
        match parse_body_fields(s, acc) {
            Some((f, r)) => r.len() < s.len(),
            None => true,
        },
    decreases s.len(),
{
    if s.len() > 0 && s[0] == 34 {
        lemma_parse_string_rest_len(s.skip(1));
        match parse_string_rest(s.skip(1)) {
            Some((name, r1)) => {
                let r2 = skip_ws(r1);
                lemma_skip_ws_len(r1);
                if r2.len() > 0 && r2[0] == 58 {
                    let r3 = skip_ws(r2.skip(1));
                    lemma_skip_ws_len(r2.skip(1));
                    lemma_parse_body_value_len(r3, name, acc);
                    match parse_body_value(r3, name, acc) {
                        Some((acc2, r4)) => {
                            let r5 = skip_ws(r4);
                            lemma_skip_ws_len(r4);
                            if r5.len() > 0 && r5[0] == 44 {
                                lemma_skip_ws_len(r5.skip(1));
                                lemma_parse_body_fields_len(skip_ws(r5.skip(1)), acc2);
                            }
                        },
                        None => {},
                    }
                }
            },
            None => {},
        }
    }
}

pub proof fn lemma_parse_body_len(s: Seq<u8>)
    ensures
        match parse_body(s) {
            Some((b, r)) => r.len() < s.len(),
            None => true,
        },
{
    if s.len() > 0 && s[0] == 123 {
        lemma_skip_ws_len(s.skip(1));
        lemma_parse_body_fields_len(skip_ws(s.skip(1)), no_body_fields());
    }
}

/// The fields of an envelope object gathered while parsing.
pub struct EnvFields {
    pub src: Option<Seq<u8>>,
    pub dest: Option<Seq<u8>>,
    pub body: Option<BodyV>,
}

/// No field seen yet.
pub open spec fn no_env_fields() -> EnvFields {
    EnvFields { src: None, dest: None, body: None }
}

/// Parses the value of one envelope field, named `name`, and records it.
pub open spec fn parse_env_value(s: Seq<u8>, name: Seq<u8>, acc: EnvFields) -> Option<
    (EnvFields, Seq<u8>),
> {
    if name == fname_src() {
        if acc.src is Some {
            None
        } else if s.len() > 0 && s[0] == 34 {
            match parse_string_rest(s.skip(1)) {
                Some((v, r)) => Some((EnvFields { src: Some(v), ..acc }, r)),
                None => None,
            }
        } else {
            None
        }
    } else if name == fname_dest() {
        if acc.dest is Some {
            None
        } else if s.len() > 0 && s[0] == 34 {
            match parse_string_rest(s.skip(1)) {
                Some((v, r)) => Some((EnvFields { dest: Some(v), ..acc }, r)),
                None => None,
            }
        } else {
            None
        }
    } else if name == fname_body() {
        if acc.body is Some {
            None
        } else {
            match parse_body(s) {
                Some((v, r)) => Some((EnvFields { body: Some(v), ..acc }, r)),
                None => None,
            }
        }
    } else {
        None
    }
}

pub proof fn lemma_parse_env_value_len(s: Seq<u8>, name: Seq<u8>, acc: EnvFields)
    ensures
        match parse_env_value(s, name, acc) {
            Some((acc2, r)) => r.len() < s.len(),
            None => true,
        },
{
    if s.len() > 0 {
        lemma_parse_string_rest_len(s.skip(1));
    }
    lemma_parse_body_len(s);
}

/// Parses the fields of an envelope object, positioned at a field name,
/// up to and including the closing brace.
pub open spec fn parse_env_fields(s: Seq<u8>, acc: EnvFields) -> Option<(EnvFields, Seq<u8>)>
    decreases s.len(),
{
    if s.len() > 0 && s[0] == 34 {
        match parse_string_rest(s.skip(1)) {
            Some((name, r1)) => {
                let r2 = skip_ws(r1);
                if r2.len() > 0 && r2[0] == 58 {
                    let r3 = skip_ws(r2.skip(1));
                    match parse_env_value(r3, name, acc) {
                        Some((acc2, r4)) => {
                            let r5 = skip_ws(r4);
                            if r5.len() > 0 && r5[0] == 44 {
                                proof {
                                    lemma_parse_string_rest_len(s.skip(1));
                                    lemma_skip_ws_len(r1);
                                    lemma_skip_ws_len(r2.skip(1));
                                    lemma_parse_env_value_len(r3, name, acc);
                                    lemma_skip_ws_len(r4);
                                    lemma_skip_ws_len(r5.skip(1));
                                }
                                parse_env_fields(skip_ws(r5.skip(1)), acc2)
                            } else if r5.len() > 0 && r5[0] == 125 {
                                Some((acc2, r5.skip(1)))
                            } else {
                                None
                            }
                        },
                        None => None,
                    }
                } else {
                    None
                }
            },
            None => None,
        }
    } else {
        None
    }
}

/// The envelope that a completed set of fields denotes: all three are
/// mandatory.
pub open spec fn env_of_fields(f: EnvFields) -> Option<EnvelopeV> {
    if f.src is Some && f.dest is Some && f.body is Some {
        Some(EnvelopeV { src: f.src->Some_0, dest: f.dest->Some_0, body: f.body->Some_0 })
    } else {
        None
    }
}

/// Parses an envelope object, brace to brace.
pub open spec fn parse_env_obj(s: Seq<u8>) -> Option<(EnvelopeV, Seq<u8>)> {
    if s.len() > 0 && s[0] == 123 {
        let r1 = skip_ws(s.skip(1));
        let fields = if r1.len() > 0 && r1[0] == 125 {
            Some((no_env_fields(), r1.skip(1)))
        } else {
            parse_env_fields(r1, no_env_fields())
        };
        match fields {
            Some((f, r2)) => match env_of_fields(f) {
                Some(e) => Some((e, r2)),
                None => None,
            },
            None => None,
        }
    } else {
        None
    }
}

/// The envelope written by a whole line: one envelope object, possibly
/// surrounded by whitespace, and nothing else.
pub open spec fn parse_envelope_text(s: Seq<u8>) -> Option<EnvelopeV> {
    match parse_env_obj(skip_ws(s)) {
        Some((e, r)) => {
            if skip_ws(r).len() == 0 {
                Some(e)
            } else {
                None
            }
        },
        None => None,
    }
}

/// The position after the whitespace that starts at `i`.
fn ws_end(s: &[u8], i: usize) -> (j: usize)
    requires
        i <= s@.len(),
    ensures
        i <= j <= s@.len(),
        skip_ws(s@.skip(i as int)) == s@.skip(j as int),
    decreases s@.len() - i,
{
    let mut j: usize = i;
    while j < s.len() && (s[j] == 32 || s[j] == 9 || s[j] == 10 || s[j] == 13)
        invariant
            i <= j <= s@.len(),
            skip_ws(s@.skip(i as int)) == skip_ws(s@.skip(j as int)),
        decreases s@.len() - j,
    {
        proof {
            assert(s@.skip(j as int).skip(1) =~= s@.skip(j as int + 1));
        }
        j = j + 1;
    }
    j
}

/// The value of a hexadecimal digit byte; 16 for any other byte.
fn hex_of(b: u8) -> (r: u8)
    ensures
        r == hex_val(b),
{
    if 48 <= b && b <= 57 {
        b - 48
    } else if 97 <= b && b <= 102 {
        b - 87
    } else if 65 <= b && b <= 70 {
        b - 55
    } else {
        16
    }
}

/// Parses string content from `i`, just after an opening quote.
fn p_string_rest(s: &[u8], i: usize) -> (r: Option<(Vec<u8>, usize)>)
    requires
        i <= s@.len(),
    ensures
        match r {
            Some((v, j)) => i < j <= s@.len() && parse_string_rest(s@.skip(i as int)) == Some(
                (v@, s@.skip(j as int)),
            ),
            None => parse_string_rest(s@.skip(i as int)) is None,
        },
    decreases s@.len() - i,
{
    if i >= s.len() {
        return None;
    }
    let b: u8 = s[i];
    if b == 34 {
        let v: Vec<u8> = Vec::new();
        proof {
            assert(s@.skip(i as int).skip(1) =~= s@.skip(i as int + 1));
            assert(v@ =~= Seq::<u8>::empty());
        }
        Some((v, i + 1))
    } else if b == 92 {
        if i + 1 >= s.len() {
            return None;
        }
        let e: u8 = s[i + 1];
        if e == 34 || e == 92 || e == 47 || e == 98 || e == 116 || e == 110 || e == 102
            || e == 114 {
            let d: u8 = if e == 34 || e == 92 || e == 47 {
                e
            } else if e == 98 {
                8
            } else if e == 116 {
                9
            } else if e == 110 {
                10
            } else if e == 102 {
                12
            } else {
                13
            };
            match p_string_rest(s, i + 2) {
                Some((mut v, j)) => {
                    let ghost v0 = v@;
                    v.insert(0, d);
                    proof {
                        assert(s@.skip(i as int).skip(2) =~= s@.skip(i as int + 2));
                        assert(v@ =~= seq![unescape(s@.skip(i as int)[1])] + v0);
                    }
                    Some((v, j))
                },
                None => {
                    proof {
                        assert(s@.skip(i as int).skip(2) =~= s@.skip(i as int + 2));
                    }
                    None
                },
            }
        } else if e == 117 {
            if s.len() - i < 6 {
                proof {
                    assert(s@.skip(i as int).len() < 6);
                }
                return None;
            }
            let h0: u8 = hex_of(s[i + 2]);
            let h1: u8 = hex_of(s[i + 3]);
            let h2: u8 = hex_of(s[i + 4]);
            let h3: u8 = hex_of(s[i + 5]);
            if h0 >= 16 || h1 >= 16 || h2 >= 16 || h3 >= 16 {
                return None;
            }
            let cp: u32 = (h0 as u32) * 4096 + (h1 as u32) * 256 + (h2 as u32) * 16 + (h3 as u32);
            if 0xD800 <= cp && cp < 0xE000 {
                return None;
            }
            match p_string_rest(s, i + 6) {
                Some((mut v, j)) => {
                    let ghost v0 = v@;
                    if cp < 0x80 {
                        v.insert(0, cp as u8);
                    } else if cp < 0x800 {
                        v.insert(0, (128 + cp % 64) as u8);
                        v.insert(0, (192 + cp / 64) as u8);
                    } else {
                        v.insert(0, (128 + cp % 64) as u8);
                        v.insert(0, (128 + (cp / 64) % 64) as u8);
                        v.insert(0, (224 + cp / 4096) as u8);
                    }
                    proof {
                        assert(s@.skip(i as int).skip(6) =~= s@.skip(i as int + 6));
                        assert(v@ =~= utf8_of(cp as int) + v0);
                    }
                    Some((v, j))
                },
                None => {
                    proof {
                        assert(s@.skip(i as int).skip(6) =~= s@.skip(i as int + 6));
                    }
                    None
                },
            }
        } else {
            None
        }
    } else if b < 32 {
        None
    } else {
        match p_string_rest(s, i + 1) {
            Some((mut v, j)) => {
                let ghost v0 = v@;
                v.insert(0, b);
                proof {
                    assert(s@.skip(i as int).skip(1) =~= s@.skip(i as int + 1));
                    assert(v@ =~= seq![s@.skip(i as int)[0]] + v0);
                }
                Some((v, j))
            },
            None => {
                proof {
                    assert(s@.skip(i as int).skip(1) =~= s@.skip(i as int + 1));
                }
                None
            },
        }
    }
}

/// A digit run's value only grows as more digits are appended.
proof fn lemma_digits_val_mono(ds: Seq<u8>, n: int)
    requires
        0 <= n <= ds.len(),
        forall|q: int| 0 <= q < ds.len() ==> is_digit(ds[q]),
    ensures
        digits_val(ds.take(n)) <= digits_val(ds),
    decreases ds.len() - n,
{
    if n < ds.len() {
        assert(ds.take(n + 1).drop_last() =~= ds.take(n));
        assert(ds.take(n + 1).last() == ds[n]);
        assert(digits_val(ds.take(n + 1)) == digits_val(ds.take(n)) * 10 + (ds[n] - 48));
        assert(digits_val(ds.take(n)) * 10 >= digits_val(ds.take(n)));
        lemma_digits_val_mono(ds, n + 1);
    } else {
        assert(ds.take(n) =~= ds);
    }
}

/// Parses a JSON unsigned integer at `i`.
fn p_u64(s: &[u8], i: usize) -> (r: Option<(u64, usize)>)
    requires
        i <= s@.len(),
    ensures
        match r {
            Some((v, j)) => i < j <= s@.len() && parse_u64(s@.skip(i as int)) == Some(
                (v, s@.skip(j as int)),
            ),
            None => parse_u64(s@.skip(i as int)) is None,
        },
{
    let ghost s0 = s@.skip(i as int);
    let mut k: usize = i;
    while k < s.len() && 48 <= s[k] && s[k] <= 57
        invariant
            i <= k <= s@.len(),
            digit_run(s0) == (k - i) + digit_run(s@.skip(k as int)),
            forall|m: int| i <= m < k ==> is_digit(s@[m]),
        decreases s@.len() - k,
    {
        proof {
            assert(s@.skip(k as int).skip(1) =~= s@.skip(k as int + 1));
        }
        k = k + 1;
    }
    proof {
        assert(digit_run(s@.skip(k as int)) == 0);
        assert(digit_run(s0) == k - i);
    }
    if k == i {
        return None;
    }
    if s[i] == 48 && k > i + 1 {
        return None;
    }
    let ghost run = s@.subrange(i as int, k as int);
    proof {
        assert(run =~= s0.take(k - i));
    }
    let mut val: u64 = 0;
    let mut m: usize = i;
    while m < k
        invariant
            i <= m <= k <= s@.len(),
            forall|q: int| i <= q < k ==> is_digit(s@[q]),
            run == s@.subrange(i as int, k as int),
            s0 == s@.skip(i as int),
            digit_run(s0) == k - i,
            run == s0.take(k - i),
            val == digits_val(s@.subrange(i as int, m as int)),
        decreases k - m,
    {
        let d: u64 = (s[m] - 48) as u64;
        proof {
            assert(s@.subrange(i as int, m as int + 1).drop_last() =~= s@.subrange(
                i as int,
                m as int,
            ));
            assert(s@.subrange(i as int, m as int + 1).last() == s@[m as int]);
        }
        if val > 1844674407370955161 || (val == 1844674407370955161 && d > 5) {
            proof {
                assert(digits_val(s@.subrange(i as int, m as int + 1)) > u64::MAX);
                assert(run.take(m + 1 - i) =~= s@.subrange(i as int, m as int + 1));
                assert(forall|q: int| 0 <= q < run.len() ==> is_digit(run[q]));
                lemma_digits_val_mono(run, m + 1 - i);
                assert(digits_val(run) > u64::MAX);
            }
            return None;
        }
        val = val * 10 + d;
        m = m + 1;
    }
    proof {
        assert(s@.subrange(i as int, m as int) =~= run);
        assert(digits_val(s0.take(digit_run(s0))) == val);
    }
    Some((val, k))
}

/// The views of a vector of byte vectors.
pub open spec fn views_of(l: Seq<Vec<u8>>) -> Seq<Seq<u8>> {
    l.map_values(|x: Vec<u8>| x@)
}

/// Parses the elements of a non-empty array of strings from `i`.
fn p_list_items(s: &[u8], i: usize) -> (r: Option<(Vec<Vec<u8>>, usize)>)
    requires
        i <= s@.len(),
    ensures
        match r {
            Some((v, j)) => i < j <= s@.len() && parse_list_items(s@.skip(i as int)) == Some(
                (views_of(v@), s@.skip(j as int)),
            ),
            None => parse_list_items(s@.skip(i as int)) is None,
        },
    decreases s@.len() - i,
{
    if i < s.len() && s[i] == 34 {
        proof {
            assert(s@.skip(i as int).skip(1) =~= s@.skip(i as int + 1));
        }
        match p_string_rest(s, i + 1) {
            Some((e, r1)) => {
                let ghost ev = e@;
                let r2: usize = ws_end(s, r1);
                if r2 < s.len() && s[r2] == 44 {
                    proof {
                        assert(s@.skip(r2 as int).skip(1) =~= s@.skip(r2 as int + 1));
                    }
                    let r3: usize = ws_end(s, r2 + 1);
                    match p_list_items(s, r3) {
                        Some((mut es, j)) => {
                            let ghost es0 = es@;
                            es.insert(0, e);
                            proof {
                                assert(views_of(es@) =~= seq![ev]
                                    + views_of(es0));
                            }
                            Some((es, j))
                        },
                        None => None,
                    }
                } else if r2 < s.len() && s[r2] == 93 {
                    let mut es: Vec<Vec<u8>> = Vec::new();
                    es.push(e);
                    proof {
                        assert(views_of(es@) =~= seq![ev]);
                        assert(s@.skip(r2 as int).skip(1) =~= s@.skip(r2 as int + 1));
                    }
                    Some((es, r2 + 1))
                } else {
                    None
                }
            },
            None => None,
        }
    } else {
        None
    }
}

/// Parses a whole array of strings from `i`.
fn p_list(s: &[u8], i: usize) -> (r: Option<(Vec<Vec<u8>>, usize)>)
    requires
        i <= s@.len(),
    ensures
        match r {
            Some((v, j)) => i < j <= s@.len() && parse_list(s@.skip(i as int)) == Some(
                (views_of(v@), s@.skip(j as int)),
            ),
            None => parse_list(s@.skip(i as int)) is None,
        },
{
    if i < s.len() && s[i] == 91 {
        proof {
            assert(s@.skip(i as int).skip(1) =~= s@.skip(i as int + 1));
        }
        let r1: usize = ws_end(s, i + 1);
        if r1 < s.len() && s[r1] == 93 {
            let es: Vec<Vec<u8>> = Vec::new();
            proof {
                assert(views_of(es@) =~= Seq::<Seq<u8>>::empty());
                assert(s@.skip(r1 as int).skip(1) =~= s@.skip(r1 as int + 1));
            }
            Some((es, r1 + 1))
        } else {
            p_list_items(s, r1)
        }
    } else {
        None
    }
}

/// Whether `v` spells `src`.
fn name_is_src(v: &Vec<u8>) -> (r: bool)
    ensures
        r == (v@ == fname_src()),
{
    let r: bool = v.len() == 3 && v[0] == 115 && v[1] == 114 && v[2] == 99;
    proof {
        if r {
            assert(v@ =~= fname_src());
        }
    }
    r
}

/// Whether `v` spells `dest`.
fn name_is_dest(v: &Vec<u8>) -> (r: bool)
    ensures
        r == (v@ == fname_dest()),
{
    let r: bool = v.len() == 4 && v[0] == 100 && v[1] == 101 && v[2] == 115 && v[3] == 116;
    proof {
        if r {
            assert(v@ =~= fname_dest());
        }
    }
    r
}

/// Whether `v` spells `body`.
fn name_is_body(v: &Vec<u8>) -> (r: bool)
    ensures
        r == (v@ == fname_body()),
{
    let r: bool = v.len() == 4 && v[0] == 98 && v[1] == 111 && v[2] == 100 && v[3] == 121;
    proof {
        if r {
            assert(v@ =~= fname_body());
        }
    }
    r
}

/// Whether `v` spells `type`.
fn name_is_type(v: &Vec<u8>) -> (r: bool)
    ensures
        r == (v@ == fname_type()),
{
    let r: bool = v.len() == 4 && v[0] == 116 && v[1] == 121 && v[2] == 112 && v[3] == 101;
    proof {
        if r {
            assert(v@ =~= fname_type());
        }
    }
    r
}

/// Whether `v` spells `msg_id`.
fn name_is_msg_id(v: &Vec<u8>) -> (r: bool)
    ensures
        r == (v@ == fname_msg_id()),
{
    let r: bool = v.len() == 6 && v[0] == 109 && v[1] == 115 && v[2] == 103 && v[3] == 95 && v[4]
        == 105 && v[5] == 100;
    proof {
        if r {
            assert(v@ =~= fname_msg_id());
        }
    }
    r
}

/// Whether `v` spells `node_id`.
fn name_is_node_id(v: &Vec<u8>) -> (r: bool)
    ensures
        r == (v@ == fname_node_id()),
{
    let r: bool = v.len() == 7 && v[0] == 110 && v[1] == 111 && v[2] == 100 && v[3] == 101 && v[4]
        == 95 && v[5] == 105 && v[6] == 100;
    proof {
        if r {
            assert(v@ =~= fname_node_id());
        }
    }
    r
}

/// Whether `v` spells `node_ids`.
fn name_is_node_ids(v: &Vec<u8>) -> (r: bool)
    ensures
        r == (v@ == fname_node_ids()),
{
    let r: bool = v.len() == 8 && v[0] == 110 && v[1] == 111 && v[2] == 100 && v[3] == 101 && v[4]
        == 95 && v[5] == 105 && v[6] == 100 && v[7] == 115;
    proof {
        if r {
            assert(v@ =~= fname_node_ids());
        }
    }
    r
}

/// Whether `v` spells `in_reply_to`.
fn name_is_in_reply_to(v: &Vec<u8>) -> (r: bool)
    ensures
        r == (v@ == fname_in_reply_to()),
{
    let r: bool = v.len() == 11 && v[0] == 105 && v[1] == 110 && v[2] == 95 && v[3] == 114 && v[4]
        == 101 && v[5] == 112 && v[6] == 108 && v[7] == 121 && v[8] == 95 && v[9] == 116 && v[10]
        == 111;
    proof {
        if r {
            assert(v@ =~= fname_in_reply_to());
        }
    }
    r
}

/// Whether `v` spells `echo`.
fn name_is_echo(v: &Vec<u8>) -> (r: bool)
    ensures
        r == (v@ == fname_echo()),
{
    let r: bool = v.len() == 4 && v[0] == 101 && v[1] == 99 && v[2] == 104 && v[3] == 111;
    proof {
        if r {
            assert(v@ =~= fname_echo());
        }
    }
    r
}

/// Whether `v` spells `init`.
fn tag_is_init(v: &Vec<u8>) -> (r: bool)
    ensures
        r == (v@ == tag_init()),
{
    let r: bool = v.len() == 4 && v[0] == 105 && v[1] == 110 && v[2] == 105 && v[3] == 116;
    proof {
        if r {
            assert(v@ =~= tag_init());
        }
    }
    r
}

/// Whether `v` spells `init_ok`.
fn tag_is_init_ok(v: &Vec<u8>) -> (r: bool)
    ensures
        r == (v@ == tag_init_ok()),
{
    let r: bool = v.len() == 7 && v[0] == 105 && v[1] == 110 && v[2] == 105 && v[3] == 116 && v[4]
        == 95 && v[5] == 111 && v[6] == 107;
    proof {
        if r {
            assert(v@ =~= tag_init_ok());
        }
    }
    r
}

/// Whether `v` spells `echo`.
fn tag_is_echo(v: &Vec<u8>) -> (r: bool)
    ensures
        r == (v@ == tag_echo()),
{
    let r: bool = v.len() == 4 && v[0] == 101 && v[1] == 99 && v[2] == 104 && v[3] == 111;
    proof {
        if r {
            assert(v@ =~= tag_echo());
        }
    }
    r
}

/// Whether `v` spells `echo_ok`.
fn tag_is_echo_ok(v: &Vec<u8>) -> (r: bool)
    ensures
        r == (v@ == tag_echo_ok()),
{
    let r: bool = v.len() == 7 && v[0] == 101 && v[1] == 99 && v[2] == 104 && v[3] == 111 && v[4]
        == 95 && v[5] == 111 && v[6] == 107;
    proof {
        if r {
            assert(v@ =~= tag_echo_ok());
        }
    }
    r
}

/// The fields of a body object as the executable parser gathers them.
pub struct BodyAcc {
    pub tag: Option<Vec<u8>>,
    pub msg_id: Option<u64>,
    pub node_id: Option<Vec<u8>>,
    pub node_ids: Option<Vec<Vec<u8>>>,
    pub in_reply_to: Option<u64>,
    pub echo: Option<Vec<u8>>,
}

impl View for BodyAcc {
    type V = BodyFields;

    open spec fn view(&self) -> BodyFields {
        BodyFields {
            tag: match self.tag {
                Some(v) => Some(v@),
                None => None,
            },
            msg_id: self.msg_id,
            node_id: match self.node_id {
                Some(v) => Some(v@),
                None => None,
            },
            node_ids: match self.node_ids {
                Some(v) => Some(views_of(v@)),
                None => None,
            },
            in_reply_to: self.in_reply_to,
            echo: match self.echo {
                Some(v) => Some(v@),
                None => None,
            },
        }
    }
}

/// Parses and records the value of the body field named `name`.
fn p_body_value(s: &[u8], i: usize, name: &Vec<u8>, acc: BodyAcc) -> (r: Option<(BodyAcc, usize)>)
    requires
        i <= s@.len(),
    ensures
        match r {
            Some((a2, j)) => i < j <= s@.len() && parse_body_value(
                s@.skip(i as int),
                name@,
                acc@,
            ) == Some((a2@, s@.skip(j as int))),
            None => parse_body_value(s@.skip(i as int), name@, acc@) is None,
        },
{
    if name_is_type(name) {
        if acc.tag.is_some() {
            return None;
        }
        if i < s.len() && s[i] == 34 {
            proof {
                assert(s@.skip(i as int).skip(1) =~= s@.skip(i as int + 1));
            }
            match p_string_rest(s, i + 1) {
                Some((v, j)) => Some((BodyAcc { tag: Some(v), ..acc }, j)),
                None => None,
            }
        } else {
            None
        }
    } else if name_is_msg_id(name) {
        if acc.msg_id.is_some() {
            return None;
        }
        match p_u64(s, i) {
            Some((v, j)) => Some((BodyAcc { msg_id: Some(v), ..acc }, j)),
            None => None,
        }
    } else if name_is_node_id(name) {
        if acc.node_id.is_some() {
            return None;
        }
        if i < s.len() && s[i] == 34 {
            proof {
                assert(s@.skip(i as int).skip(1) =~= s@.skip(i as int + 1));
            }
            match p_string_rest(s, i + 1) {
                Some((v, j)) => Some((BodyAcc { node_id: Some(v), ..acc }, j)),
                None => None,
            }
        } else {
            None
        }
    } else if name_is_node_ids(name) {
        if acc.node_ids.is_some() {
            return None;
        }
        match p_list(s, i) {
            Some((v, j)) => Some((BodyAcc { node_ids: Some(v), ..acc }, j)),
            None => None,
        }
    } else if name_is_in_reply_to(name) {
        if acc.in_reply_to.is_some() {
            return None;
        }
        match p_u64(s, i) {
            Some((v, j)) => Some((BodyAcc { in_reply_to: Some(v), ..acc }, j)),
            None => None,
        }
    } else if name_is_echo(name) {
        if acc.echo.is_some() {
            return None;
        }
        if i < s.len() && s[i] == 34 {
            proof {
                assert(s@.skip(i as int).skip(1) =~= s@.skip(i as int + 1));
            }
            match p_string_rest(s, i + 1) {
                Some((v, j)) => Some((BodyAcc { echo: Some(v), ..acc }, j)),
                None => None,
            }
        } else {
            None
        }
    } else {
        None
    }
}

/// Parses the fields of a body object from a field name at `i` up to and
/// including the closing brace.
#[verifier::rlimit(60)]
fn p_body_fields(s: &[u8], i: usize, acc: BodyAcc) -> (r: Option<(BodyAcc, usize)>)
    requires
        i <= s@.len(),
    ensures
        match r {
            Some((f, j)) => i < j <= s@.len() && parse_body_fields(s@.skip(i as int), acc@)
                == Some((f@, s@.skip(j as int))),
            None => parse_body_fields(s@.skip(i as int), acc@) is None,
        },
    decreases s@.len() - i,
{
    if i < s.len() && s[i] == 34 {
        proof {
            assert(s@.skip(i as int).skip(1) =~= s@.skip(i as int + 1));
        }
        match p_string_rest(s, i + 1) {
            Some((nm, r1)) => {
                let r2: usize = ws_end(s, r1);
                if r2 < s.len() && s[r2] == 58 {
                    proof {
                        assert(s@.skip(r2 as int).skip(1) =~= s@.skip(r2 as int + 1));
                    }
                    let r3: usize = ws_end(s, r2 + 1);
                    match p_body_value(s, r3, &nm, acc) {
                        Some((acc2, r4)) => {
                            let r5: usize = ws_end(s, r4);
                            if r5 < s.len() && s[r5] == 44 {
                                proof {
                                    assert(s@.skip(r5 as int).skip(1) =~= s@.skip(
                                        r5 as int + 1,
                                    ));
                                }
                                let r6: usize = ws_end(s, r5 + 1);
                                p_body_fields(s, r6, acc2)
                            } else if r5 < s.len() && s[r5] == 125 {
                                proof {
                                    assert(s@.skip(r5 as int).skip(1) =~= s@.skip(
                                        r5 as int + 1,
                                    ));
                                }
                                Some((acc2, r5 + 1))
                            } else {
                                None
                            }
                        },
                        None => None,
                    }
                } else {
                    None
                }
            },
            None => None,
        }
    } else {
        None
    }
}

/// The body that a completed set of fields denotes.
fn body_of_acc(acc: BodyAcc) -> (r: Option<Body>)
    ensures
        match r {
            Some(b) => body_of_fields(acc@) == Some(b@),
            None => body_of_fields(acc@) is None,
        },
{
    match acc.tag {
        Some(t) => {
            if tag_is_init(&t) {
                match (acc.msg_id, acc.node_id, acc.node_ids) {
                    (Some(m), Some(nid), Some(nids)) => Some(
                        Body::Init { msg_id: m, node_id: nid, node_ids: nids },
                    ),
                    _ => None,
                }
            } else if tag_is_init_ok(&t) {
                match acc.in_reply_to {
                    Some(rt) => Some(Body::InitOk { in_reply_to: rt }),
                    None => None,
                }
            } else if tag_is_echo(&t) {
                match (acc.msg_id, acc.echo) {
                    (Some(m), Some(e)) => Some(Body::Echo { msg_id: m, echo: e }),
                    _ => None,
                }
            } else if tag_is_echo_ok(&t) {
                match (acc.msg_id, acc.in_reply_to, acc.echo) {
                    (Some(m), Some(rt), Some(e)) => Some(
                        Body::EchoOk { msg_id: m, in_reply_to: rt, echo: e },
                    ),
                    _ => None,
                }
            } else {
                None
            }
        },
        None => None,
    }
}

/// Parses a body object from `i`, brace to brace.
fn p_body(s: &[u8], i: usize) -> (r: Option<(Body, usize)>)
    requires
        i <= s@.len(),
    ensures
        match r {
            Some((b, j)) => i < j <= s@.len() && parse_body(s@.skip(i as int)) == Some(
                (b@, s@.skip(j as int)),
            ),
            None => parse_body(s@.skip(i as int)) is None,
        },
{
    if i < s.len() && s[i] == 123 {
        proof {
            assert(s@.skip(i as int).skip(1) =~= s@.skip(i as int + 1));
        }
        let r1: usize = ws_end(s, i + 1);
        let acc0 = BodyAcc {
            tag: None,
            msg_id: None,
            node_id: None,
            node_ids: None,
            in_reply_to: None,
            echo: None,
        };
        proof {
            assert(acc0@ == no_body_fields());
        }
        let fields: Option<(BodyAcc, usize)> = if r1 < s.len() && s[r1] == 125 {
            proof {
                assert(s@.skip(r1 as int).skip(1) =~= s@.skip(r1 as int + 1));
            }
            Some((acc0, r1 + 1))
        } else {
            p_body_fields(s, r1, acc0)
        };
        match fields {
            Some((f, r2)) => match body_of_acc(f) {
                Some(b) => Some((b, r2)),
                None => None,
            },
            None => None,
        }
    } else {
        None
    }
}

/// The fields of an envelope object as the executable parser gathers them.
pub struct EnvAcc {
    pub src: Option<Vec<u8>>,
    pub dest: Option<Vec<u8>>,
    pub body: Option<Body>,
}

impl View for EnvAcc {
    type V = EnvFields;

    open spec fn view(&self) -> EnvFields {
        EnvFields {
            src: match self.src {
                Some(v) => Some(v@),
                None => None,
            },
            dest: match self.dest {
                Some(v) => Some(v@),
                None => None,
            },
            body: match self.body {
                Some(b) => Some(b@),
                None => None,
            },
        }
    }
}

/// Parses and records the value of the envelope field named `name`.
fn p_env_value(s: &[u8], i: usize, name: &Vec<u8>, acc: EnvAcc) -> (r: Option<(EnvAcc, usize)>)
    requires
        i <= s@.len(),
    ensures
        match r {
            Some((a2, j)) => i < j <= s@.len() && parse_env_value(
                s@.skip(i as int),
                name@,
                acc@,
            ) == Some((a2@, s@.skip(j as int))),
            None => parse_env_value(s@.skip(i as int), name@, acc@) is None,
        },
{
    if name_is_src(name) {
        if acc.src.is_some() {
            return None;
        }
        if i < s.len() && s[i] == 34 {
            proof {
                assert(s@.skip(i as int).skip(1) =~= s@.skip(i as int + 1));
            }
            match p_string_rest(s, i + 1) {
                Some((v, j)) => Some((EnvAcc { src: Some(v), ..acc }, j)),
                None => None,
            }
        } else {
            None
        }
    } else if name_is_dest(name) {
        if acc.dest.is_some() {
            return None;
        }
        if i < s.len() && s[i] == 34 {
            proof {
                assert(s@.skip(i as int).skip(1) =~= s@.skip(i as int + 1));
            }
            match p_string_rest(s, i + 1) {
                Some((v, j)) => Some((EnvAcc { dest: Some(v), ..acc }, j)),
                None => None,
            }
        } else {
            None
        }
    } else if name_is_body(name) {
        if acc.body.is_some() {
            return None;
        }
        match p_body(s, i) {
            Some((v, j)) => Some((EnvAcc { body: Some(v), ..acc }, j)),
            None => None,
        }
    } else {
        None
    }
}

/// Parses the fields of an envelope object from a field name at `i` up
/// to and including the closing brace.
#[verifier::rlimit(60)]
fn p_env_fields(s: &[u8], i: usize, acc: EnvAcc) -> (r: Option<(EnvAcc, usize)>)
    requires
        i <= s@.len(),
    ensures
        match r {
            Some((f, j)) => i < j <= s@.len() && parse_env_fields(s@.skip(i as int), acc@)
                == Some((f@, s@.skip(j as int))),
            None => parse_env_fields(s@.skip(i as int), acc@) is None,
        },
    decreases s@.len() - i,
{
    if i < s.len() && s[i] == 34 {
        proof {
            assert(s@.skip(i as int).skip(1) =~= s@.skip(i as int + 1));
        }
        match p_string_rest(s, i + 1) {
            Some((nm, r1)) => {
                let r2: usize = ws_end(s, r1);
                if r2 < s.len() && s[r2] == 58 {
                    proof {
                        assert(s@.skip(r2 as int).skip(1) =~= s@.skip(r2 as int + 1));
                    }
                    let r3: usize = ws_end(s, r2 + 1);
                    match p_env_value(s, r3, &nm, acc) {
                        Some((acc2, r4)) => {
                            let r5: usize = ws_end(s, r4);
                            if r5 < s.len() && s[r5] == 44 {
                                proof {
                                    assert(s@.skip(r5 as int).skip(1) =~= s@.skip(
                                        r5 as int + 1,
                                    ));
                                }
                                let r6: usize = ws_end(s, r5 + 1);
                                p_env_fields(s, r6, acc2)
                            } else if r5 < s.len() && s[r5] == 125 {
                                proof {
                                    assert(s@.skip(r5 as int).skip(1) =~= s@.skip(
                                        r5 as int + 1,
                                    ));
                                }
                                Some((acc2, r5 + 1))
                            } else {
                                None
                            }
                        },
                        None => None,
                    }
                } else {
                    None
                }
            },
            None => None,
        }
    } else {
        None
    }
}

/// Parses an envelope object from `i`, brace to brace.
fn p_env_obj(s: &[u8], i: usize) -> (r: Option<(Envelope, usize)>)
    requires
        i <= s@.len(),
    ensures
        match r {
            Some((e, j)) => i < j <= s@.len() && parse_env_obj(s@.skip(i as int)) == Some(
                (e@, s@.skip(j as int)),
            ),
            None => parse_env_obj(s@.skip(i as int)) is None,
        },
{
    if i < s.len() && s[i] == 123 {
        proof {
            assert(s@.skip(i as int).skip(1) =~= s@.skip(i as int + 1));
        }
        let r1: usize = ws_end(s, i + 1);
        let acc0 = EnvAcc { src: None, dest: None, body: None };
        proof {
            assert(acc0@ == no_env_fields());
        }
        let fields: Option<(EnvAcc, usize)> = if r1 < s.len() && s[r1] == 125 {
            proof {
                assert(s@.skip(r1 as int).skip(1) =~= s@.skip(r1 as int + 1));
            }
            Some((acc0, r1 + 1))
        } else {
            p_env_fields(s, r1, acc0)
        };
        match fields {
            Some((f, r2)) => match (f.src, f.dest, f.body) {
                (Some(src), Some(dest), Some(body)) => Some(
                    (Envelope { src, dest, body }, r2),
                ),
                _ => None,
            },
            None => None,
        }
    } else {
        None
    }
}

/// Parses one whole input line as an envelope: an envelope object,
/// possibly surrounded by whitespace, and nothing else.  Returns `Ok`
/// exactly on the lines that the wire grammar accepts, and the envelope
/// the line writes.
pub fn parse_envelope(s: &[u8]) -> (r: Result<Envelope, ParseError>)
    ensures
        match r {
            Ok(e) => parse_envelope_text(s@) == Some(e@),
            Err(_) => parse_envelope_text(s@) is None,
        },
{
    proof {
        assert(s@.skip(0) =~= s@);
    }
    let r0: usize = ws_end(s, 0);
    match p_env_obj(s, r0) {
        Some((e, r1)) => {
            let r2: usize = ws_end(s, r1);
            if r2 == s.len() {
                Ok(e)
            } else {
                Err(ParseError)
            }
        },
        None => Err(ParseError),
    }
}

} // verus!
