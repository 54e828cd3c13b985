//! The message envelope and its tagged body, with their mathematical views.
//!
//! Node identifiers and echo payloads travel as raw bytes of the JSON
//! text, so every field of the wire schema is held here as plain bytes,
//! integers, or sequences of bytes.

use vstd::prelude::*;

verus! {

/// The tagged payload of a message, keyed on the wire by the `type` field.
#[derive(Debug, Clone, PartialEq, Eq)]
pub enum Body {
    /// `init`: the harness announces this node's identity and the cluster.
    Init { msg_id: u64, node_id: Vec<u8>, node_ids: Vec<Vec<u8>> },
    /// `init_ok`: acknowledgement of an `init` request.
    InitOk { in_reply_to: u64 },
    /// `echo`: a request to send the payload back.
    Echo { msg_id: u64, echo: Vec<u8> },
    /// `echo_ok`: acknowledgement of an `echo` request.
    EchoOk { msg_id: u64, in_reply_to: u64, echo: Vec<u8> },
}

/// The mathematical value of a [`Body`].
pub enum BodyV {
    Init { msg_id: u64, node_id: Seq<u8>, node_ids: Seq<Seq<u8>> },
    InitOk { in_reply_to: u64 },
    Echo { msg_id: u64, echo: Seq<u8> },
    EchoOk { msg_id: u64, in_reply_to: u64, echo: Seq<u8> },
}

/// The outer message wrapper: source, destination, payload.
#[derive(Debug, Clone, PartialEq, Eq)]
pub struct Envelope {
    pub src: Vec<u8>,
    pub dest: Vec<u8>,
    pub body: Body,
}

/// The mathematical value of an [`Envelope`].
pub struct EnvelopeV {
    pub src: Seq<u8>,
    pub dest: Seq<u8>,
    pub body: BodyV,
}

impl View for Body {
    type V = BodyV;

    open spec fn view(&self) -> BodyV {
        match self {
            Body::Init { msg_id, node_id, node_ids } => BodyV::Init {
                msg_id: *msg_id,
                node_id: node_id@,
                node_ids: node_ids@.map_values(|v: Vec<u8>| v@),
            },
            Body::InitOk { in_reply_to } => BodyV::InitOk { in_reply_to: *in_reply_to },
            Body::Echo { msg_id, echo } => BodyV::Echo { msg_id: *msg_id, echo: echo@ },
            Body::EchoOk { msg_id, in_reply_to, echo } => BodyV::EchoOk {
                msg_id: *msg_id,
                in_reply_to: *in_reply_to,
                echo: echo@,
            },
        }
    }
}

impl View for Envelope {
    type V = EnvelopeV;

    open spec fn view(&self) -> EnvelopeV {
        EnvelopeV { src: self.src@, dest: self.dest@, body: self.body@ }
    }
}

/// Input decode failure: a line that is not a well-formed envelope of the
/// wire schema.  The protocol treats every such line as fatal, so no finer
/// distinction is drawn.
#[derive(Debug, Clone, Copy, PartialEq, Eq)]
pub struct ParseError;

} // verus!
