//! Between the wire and the handlers: the frames of a request and of its
//! answer, and the decoding of bodies.

use vstd::prelude::*;
use crate::clock::now_ts;
use crate::codec::{
    decode_json, decode_msgpack, decode_msgpack_value, json_value, to_wire, wire_bytes,
    msgpack_tree, msgpack_value,
};
use crate::config::Config;
use crate::decimal::Decimal;
use crate::event::PubMsg;
use crate::handlers::{handle_at, is_frame_of, reply};
use crate::ingest::{frames_match, handle_ingest, ingest_result};
use crate::json::{Json, JsonModel};
use crate::state::MpState;

verus! {

/// The bytes of each frame.
pub open spec fn frame_bytes(frames: Seq<Vec<u8>>) -> Seq<Seq<u8>> {
    frames.map_values(|f: Vec<u8>| f@)
}

/// Splits what the request channel delivered into the routing envelope and
/// the body: the last frame is the body, the frames before it are the
/// envelope. `None` for fewer than two frames.
pub fn split_request(parts: Vec<Vec<u8>>) -> (r: Option<(Vec<Vec<u8>>, Vec<u8>)>)
    ensures
        match r {
            Some((envelope, body)) => parts@.len() >= 2 && frame_bytes(envelope@) == frame_bytes(
                parts@,
            ).drop_last() && body@ == frame_bytes(parts@).last(),
            None => parts@.len() < 2,
        },
{
    let mut envelope = parts;
    if envelope.len() < 2 {
        return None;
    }
    let body = envelope.pop().unwrap();
    proof {
        assert(frame_bytes(envelope@) =~= frame_bytes(parts@).drop_last());
    }
    Some((envelope, body))
}

/// The frames of an answer: the envelope of the request, unchanged, and
/// then the body.
pub fn response_frames(envelope: Vec<Vec<u8>>, body: Vec<u8>) -> (out: Vec<Vec<u8>>)
    ensures
        frame_bytes(out@) == frame_bytes(envelope@).push(body@),
{
    let mut out = envelope;
    out.push(body);
    proof {
        assert(frame_bytes(out@) =~= frame_bytes(envelope@).push(body@));
    }
    out
}

/// The request that a body holds and the path that it takes. A body that
/// decodes as a binary map takes the binary path. Any other is read as
/// text and takes the text path; where it cannot be read the request is
/// null.
pub open spec fn decoded(body: Seq<u8>) -> (JsonModel, bool) {
    match msgpack_tree(body) {
        Some(JsonModel::Object(o)) => (JsonModel::Object(o), true),
        _ => match json_value(body) {
            Some(v) => (v, false),
            None => (JsonModel::Null, false),
        },
    }
}

/// The request that `body` holds, and whether it takes the binary path.
pub fn decode_request(body: &[u8]) -> (r: (Json, bool))
    ensures
        (r.0@, r.1) == decoded(body@),
{
    match decode_msgpack_value(body) {
        Some(v) => {
            if v.is_object() {
                return (v, true);
            }
        },
        None => {},
    }
    match decode_json(body) {
        Some(v) => (v, false),
        None => (Json::Null, false),
    }
}

/// Serves the request in `body` at the time `now`. Returns the encoded
/// answer and the frame to fan out, if any.
pub fn serve_at(body: &[u8], state: &mut MpState, cfg: &Config, now: Decimal) -> (r: (
    Vec<u8>,
    Option<PubMsg>,
))
    ensures
        r.0@ == wire_bytes(
            reply(decoded(body@).0, old(state)@, *cfg, now, decoded(body@).1).response,
        ),
        final(state)@ == reply(decoded(body@).0, old(state)@, *cfg, now, decoded(body@).1).state,
        is_frame_of(
            r.1,
            reply(decoded(body@).0, old(state)@, *cfg, now, decoded(body@).1).fanout,
        ),
        old(state)@.wf() ==> final(state)@.wf(),
{
    let (req, binary) = decode_request(body);
    let (answer, frame) = handle_at(&req, state, cfg, now, binary);
    (to_wire(&answer), frame)
}

/// Serves the request in `body` at the time that the clock gives.
pub fn serve(body: &[u8], state: &mut MpState, cfg: &Config) -> (r: (Vec<u8>, Option<PubMsg>))
    ensures
        exists|now: Decimal|
            {
                &&& r.0@ == wire_bytes(
                    (#[trigger] reply(
                        decoded(body@).0,
                        old(state)@,
                        *cfg,
                        now,
                        decoded(body@).1,
                    )).response,
                )
                &&& final(state)@ == reply(
                    decoded(body@).0,
                    old(state)@,
                    *cfg,
                    now,
                    decoded(body@).1,
                ).state
                &&& is_frame_of(
                    r.1,
                    reply(decoded(body@).0, old(state)@, *cfg, now, decoded(body@).1).fanout,
                )
            },
        old(state)@.wf() ==> final(state)@.wf(),
{
    let now = now_ts();
    serve_at(body, state, cfg, now)
}

/// Applies the message in `raw`, as it came from the ingest channel, at the
/// time `now`. Bytes that hold no message change nothing. Returns the
/// frames to send.
pub fn ingest_at(raw: &[u8], state: &mut MpState, cfg: &Config, now: Decimal) -> (frames: Vec<
    PubMsg,
>)
    ensures
        match msgpack_value(raw@) {
            Some(msg) => final(state)@ == ingest_result(old(state)@, msg, *cfg, now).0
                && frames_match(frames@, ingest_result(old(state)@, msg, *cfg, now).1, *cfg),
            None => final(state)@ == old(state)@ && frames@.len() == 0,
        },
        old(state)@.wf() ==> final(state)@.wf(),
{
    match decode_msgpack(raw) {
        Some(msg) => handle_ingest(state, &msg, cfg, now),
        None => Vec::new(),
    }
}

/// Applies the message in `raw` at the time that the clock gives.
pub fn ingest(raw: &[u8], state: &mut MpState, cfg: &Config) -> (frames: Vec<PubMsg>)
    ensures
        old(state)@.wf() ==> final(state)@.wf(),
        msgpack_value(raw@) is None ==> final(state)@ == old(state)@ && frames@.len() == 0,
        msgpack_value(raw@) is Some ==> exists|now: Decimal|
            {
                &&& final(state)@ == (#[trigger] ingest_result(
                    old(state)@,
                    msgpack_value(raw@)->0,
                    *cfg,
                    now,
                )).0
                &&& frames_match(
                    frames@,
                    ingest_result(old(state)@, msgpack_value(raw@)->0, *cfg, now).1,
                    *cfg,
                )
            },
{
    let now = now_ts();
    ingest_at(raw, state, cfg, now)
}

} // verus!
