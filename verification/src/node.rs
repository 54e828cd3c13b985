//! The node's dispatch: what one received envelope is answered with.
//!
//! Processing is stateless: each line is handled on its own, and the
//! whole behaviour of the node on a line is a function of that line.

use vstd::prelude::*;
use crate::enc::enc_envelope;
use crate::enc::encode_envelope;
use crate::parse::views_of;
use crate::msg::Body;
use crate::msg::BodyV;
use crate::msg::Envelope;
use crate::msg::EnvelopeV;
use crate::msg::ParseError;
use crate::parse::parse_envelope;
use crate::parse::parse_envelope_text;

verus! {

/// The response an envelope calls for.  A request is answered with the
/// source and destination swapped and `in_reply_to` set to the request's
/// `msg_id`; an acknowledgement gets none.
pub open spec fn spec_response(m: EnvelopeV) -> Option<EnvelopeV> {
    match m.body {
        BodyV::Init { msg_id, node_id, node_ids } => Some(
            EnvelopeV { src: m.dest, dest: m.src, body: BodyV::InitOk { in_reply_to: msg_id } },
        ),
        BodyV::Echo { msg_id, echo } => Some(
            EnvelopeV {
                src: m.dest,
                dest: m.src,
                body: BodyV::EchoOk { msg_id: msg_id, in_reply_to: msg_id, echo: echo },
            },
        ),
        BodyV::InitOk { .. } => None,
        BodyV::EchoOk { .. } => None,
    }
}

/// Computes the response to one envelope: `init_ok` for `init`, `echo_ok`
/// (with the request's own `msg_id` both as `msg_id` and `in_reply_to`)
/// for `echo`, and nothing for the two acknowledgement kinds.
pub fn handle_message(message: Envelope) -> (r: Option<Envelope>)
    ensures
        match r {
            Some(resp) => spec_response(message@) == Some(resp@),
            None => spec_response(message@) is None,
        },
{
    match message.body {
        Body::Init { msg_id, .. } => Some(
            Envelope {
                src: message.dest,
                dest: message.src,
                body: Body::InitOk { in_reply_to: msg_id },
            },
        ),
        Body::Echo { msg_id, echo } => Some(
            Envelope {
                src: message.dest,
                dest: message.src,
                body: Body::EchoOk { msg_id: msg_id, in_reply_to: msg_id, echo: echo },
            },
        ),
        Body::InitOk { .. } => None,
        Body::EchoOk { .. } => None,
    }
}

/// What the node does with one input line: the serialized response to
/// emit, no output for an acknowledgement, or the decode failure that
/// aborts the node.
pub open spec fn spec_process_line(line: Seq<u8>) -> Result<Option<Seq<u8>>, ParseError> {
    match parse_envelope_text(line) {
        Some(env) => match spec_response(env) {
            Some(resp) => Ok(Some(enc_envelope(resp))),
            None => Ok(None),
        },
        None => Err(ParseError),
    }
}

/// Handles one input line: parses it, dispatches, and serializes the
/// response if one is owed.
pub fn process_line(line: &[u8]) -> (r: Result<Option<Vec<u8>>, ParseError>)
    ensures
        match r {
            Ok(Some(out)) => spec_process_line(line@) == Ok::<Option<Seq<u8>>, ParseError>(
                Some(out@),
            ),
            Ok(None) => spec_process_line(line@) == Ok::<Option<Seq<u8>>, ParseError>(None),
            Err(e) => spec_process_line(line@) == Err::<Option<Seq<u8>>, ParseError>(e),
        },
{
    match parse_envelope(line) {
        Ok(env) => match handle_message(env) {
            Some(resp) => Ok(Some(encode_envelope(&resp))),
            None => Ok(None),
        },
        Err(e) => Err(e),
    }
}

/// What a whole run of the node emits for a sequence of input lines: the
/// serialized responses to the requests among them, in input order, and
/// whether the run ended cleanly.  The first line that cannot be decoded
/// stops the run; the responses already emitted stand.
pub open spec fn spec_run(lines: Seq<Seq<u8>>) -> (Seq<Seq<u8>>, bool)
    decreases lines.len(),
{
    if lines.len() == 0 {
        (Seq::empty(), true)
    } else {
        match spec_process_line(lines[0]) {
            Ok(out) => {
                let (rest, clean) = spec_run(lines.skip(1));
                match out {
                    Some(o) => (seq![o] + rest, clean),
                    None => (rest, clean),
                }
            },
            Err(_) => (Seq::empty(), false),
        }
    }
}

/// The message loop on a whole input: processes the lines in order and
/// collects each response as it is owed; a line that cannot be decoded
/// ends the run at once, as a node crash.  Returns the emitted lines and
/// whether the input was consumed to its end.
pub fn run_node(lines: &Vec<Vec<u8>>) -> (r: (Vec<Vec<u8>>, bool))
    ensures
        views_of(r.0@) == spec_run(views_of(lines@)).0,
        r.1 == spec_run(views_of(lines@)).1,
{
    let ghost all = views_of(lines@);
    let mut out: Vec<Vec<u8>> = Vec::new();
    let mut i: usize = 0;
    proof {
        assert(all.skip(0) =~= all);
        assert(views_of(out@) =~= Seq::<Seq<u8>>::empty());
    }
    while i < lines.len()
        invariant
            i <= lines@.len(),
            all == views_of(lines@),
            spec_run(all) == (views_of(out@) + spec_run(all.skip(i as int)).0, spec_run(
                all.skip(i as int),
            ).1),
        decreases lines@.len() - i,
    {
        let ghost rem = all.skip(i as int);
        proof {
            assert(rem[0] == lines@[i as int]@);
            assert(rem.skip(1) =~= all.skip(i as int + 1));
        }
        match process_line(lines[i].as_slice()) {
            Ok(Some(resp)) => {
                let ghost o0 = out@;
                out.push(resp);
                proof {
                    assert(views_of(out@) =~= views_of(o0) + seq![resp@]);
                    assert(views_of(o0) + (seq![resp@] + spec_run(rem.skip(1)).0) =~= views_of(
                        out@,
                    ) + spec_run(rem.skip(1)).0);
                }
            },
            Ok(None) => {},
            Err(_) => {
                proof {
                    assert(spec_run(rem).0 =~= Seq::<Seq<u8>>::empty());
                    assert(views_of(out@) + spec_run(rem).0 =~= views_of(out@));
                }
                return (out, false);
            },
        }
        i = i + 1;
    }
    proof {
        assert(all.skip(i as int).len() == 0);
        assert(spec_run(all.skip(i as int)).0 =~= Seq::<Seq<u8>>::empty());
        assert(views_of(out@) + spec_run(all.skip(i as int)).0 =~= views_of(out@));
    }
    (out, true)
}

} // verus!
