//! The endpoint's decisions: which local clipboard changes to broadcast, and
//! what to remember of the updates it applies, so that applying a remote
//! update is never mistaken for a local copy.

use crate::crypto::envelope_plaintext;
use crate::framing::{encode_frame, frame_of, MAX_FRAME_LEN};
use crate::message::{carries, open_payload, opened, seal_payload};
use crate::protocol::{encoding, ClipboardData, Payload};
use vstd::prelude::*;

verus! {

/// Why a payload could not be turned into a frame.
#[derive(Debug, Clone, Copy, PartialEq, Eq, Structural)]
pub enum SendError {
    /// The sealed payload is longer than a frame may be.
    Oversized,
}

/// The value of an optional payload.
pub open spec fn opt_view(o: Option<ClipboardData>) -> Option<Payload> {
    match o {
        Some(d) => Some(d@),
        None => None,
    }
}

/// The endpoint's state, as values.
pub struct EndpointView {
    /// The text this endpoint last read from the OS clipboard.
    pub last_text: Option<Seq<char>>,
    /// The payload it last wrote to the OS clipboard on a remote update, not
    /// yet checked by a poll.
    pub last_applied: Option<Payload>,
}

/// What a poll reads from the OS clipboard, set against the text last seen
/// there: a changed text or any image is a candidate; nothing else is.
pub open spec fn candidate(last_text: Option<Seq<char>>, reading: Option<Payload>) -> Option<Payload> {
    match reading {
        Some(Payload::Text(t)) => if last_text == Some(t) {
            None
        } else {
            Some(Payload::Text(t))
        },
        Some(Payload::Image { width, height, bytes }) => Some(
            Payload::Image { width, height, bytes },
        ),
        None => None,
    }
}

/// The candidate is the echo of the update last applied: the same text, or an
/// image after an image (images are not compared).
pub open spec fn is_echo(applied: Option<Payload>, cand: Payload) -> bool {
    match (applied, cand) {
        (Some(Payload::Text(t)), Payload::Text(c)) => t == c,
        (Some(Payload::Image { .. }), Payload::Image { .. }) => true,
        _ => false,
    }
}

/// What a poll broadcasts from state `s` on `reading`.
pub open spec fn poll_output(s: EndpointView, reading: Option<Payload>) -> Option<Payload> {
    match candidate(s.last_text, reading) {
        Some(c) => if is_echo(s.last_applied, c) {
            None
        } else {
            Some(c)
        },
        None => None,
    }
}

/// The state after a poll from state `s` on `reading`: a text read is
/// remembered, and the last applied update is forgotten.
pub open spec fn poll_next(s: EndpointView, reading: Option<Payload>) -> EndpointView {
    EndpointView {
        last_text: match reading {
            Some(Payload::Text(t)) => Some(t),
            _ => s.last_text,
        },
        last_applied: None,
    }
}

/// The endpoint's state, shared by its receive loop and its poll loop.
pub struct Endpoint {
    last_text: Option<String>,
    last_applied: Option<ClipboardData>,
}

impl View for Endpoint {
    type V = EndpointView;

    closed spec fn view(&self) -> EndpointView {
        EndpointView {
            last_text: match self.last_text {
                Some(t) => Some(t@),
                None => None,
            },
            last_applied: opt_view(self.last_applied),
        }
    }
}

fn copy_text(o: &Option<String>) -> (r: Option<String>)
    ensures
        match (r, *o) {
            (Some(a), Some(b)) => a@ == b@,
            (None, None) => true,
            _ => false,
        },
{
    match o {
        Some(t) => Some(t.clone()),
        None => None,
    }
}

impl Endpoint {
    /// A fresh endpoint; `initial_text` is the text on the OS clipboard at
    /// start, if any.
    pub fn new(initial_text: Option<String>) -> (r: Endpoint)
        ensures
            r@.last_text == (match initial_text {
                Some(t) => Some(t@),
                None => None::<Seq<char>>,
            }),
            r@.last_applied is None,
    {
        Endpoint { last_text: initial_text, last_applied: None }
    }

    /// The text last read from the OS clipboard.
    pub fn last_text(&self) -> (r: Option<String>)
        ensures
            match r {
                Some(t) => self@.last_text == Some(t@),
                None => self@.last_text is None,
            },
    {
        copy_text(&self.last_text)
    }

    /// The update last applied and not yet checked by a poll.
    pub fn last_applied(&self) -> (r: Option<ClipboardData>)
        ensures
            opt_view(r) == self@.last_applied,
    {
        match &self.last_applied {
            Some(d) => Some(d.duplicate()),
            None => None,
        }
    }

    /// Remembers `data` as just written to the OS clipboard on a remote update.
    pub fn record_applied(&mut self, data: &ClipboardData)
        ensures
            final(self)@.last_applied == Some(data@),
            final(self)@.last_text == old(self)@.last_text,
    {
        self.last_applied = Some(data.duplicate());
    }

    /// One poll cycle on what the OS clipboard holds now (`None` when it holds
    /// neither text nor an image): gives the payload to broadcast, if any.
    pub fn poll(&mut self, reading: Option<ClipboardData>) -> (r: Option<ClipboardData>)
        ensures
            opt_view(r) == poll_output(old(self)@, opt_view(reading)),
            final(self)@ == poll_next(old(self)@, opt_view(reading)),
    {
        let cand: Option<ClipboardData> = match reading {
            Some(ClipboardData::Text(t)) => {
                let changed = match &self.last_text {
                    Some(prev) => !prev.eq(&t),
                    None => true,
                };
                self.last_text = Some(t.clone());
                if changed {
                    Some(ClipboardData::Text(t))
                } else {
                    None
                }
            },
            Some(ClipboardData::Image { width, height, bytes }) => Some(
                ClipboardData::Image { width, height, bytes },
            ),
            None => None,
        };
        let out = match cand {
            Some(c) => {
                let echo = match (&self.last_applied, &c) {
                    (Some(ClipboardData::Text(t)), ClipboardData::Text(ct)) => t.eq(ct),
                    (Some(ClipboardData::Image { .. }), ClipboardData::Image { .. }) => true,
                    _ => false,
                };
                if echo {
                    None
                } else {
                    Some(c)
                }
            },
            None => None,
        };
        self.last_applied = None;
        out
    }

    /// Takes an envelope from the relay: when it opens under `key` to a
    /// payload, remembers that payload as applied and gives it, to be written
    /// to the OS clipboard. Anything else leaves the state as it was.
    pub fn receive(&mut self, envelope: &[u8], key: &[u8; 32]) -> (r: Option<ClipboardData>)
        ensures
            opt_view(r) == opened(key@, envelope@),
            forall|d: Payload| #[trigger] carries(key@, envelope@, d) ==> opt_view(r) == Some(d),
            r is Some ==> final(self)@.last_applied == opt_view(r),
            r is None ==> final(self)@ == old(self)@,
            final(self)@.last_text == old(self)@.last_text,
    {
        match open_payload(envelope, key) {
            Ok(d) => {
                self.record_applied(&d);
                Some(d)
            },
            Err(_) => None,
        }
    }
}

/// The frame that carries `data`, sealed under `key` with a fresh nonce.
pub fn seal_frame(data: &ClipboardData, key: &[u8; 32]) -> (r: Result<Vec<u8>, SendError>)
    ensures
        12 + encoding(data@).len() + 16 <= MAX_FRAME_LEN <==> r is Ok,
        r is Err ==> r == Err::<Vec<u8>, SendError>(SendError::Oversized),
        r is Ok ==> r->Ok_0@ == frame_of(r->Ok_0@.subrange(4, r->Ok_0@.len() as int)),
        r is Ok ==> envelope_plaintext(key@, r->Ok_0@.subrange(4, r->Ok_0@.len() as int)) == Some(
            encoding(data@),
        ),
{
    match seal_payload(data, key) {
        Err(_) => Err(SendError::Oversized),
        Ok(envelope) => match encode_frame(&envelope) {
            Ok(frame) => {
                assert(frame@.subrange(4, frame@.len() as int) =~= envelope@);
                Ok(frame)
            },
            Err(_) => Err(SendError::Oversized),
        },
    }
}

/// Echo suppression: once text `t` from the network has been applied, the
/// next poll that reads `t` broadcasts nothing; the poll after it, reading a
/// text `w` that the user copied, broadcasts `w`.
pub proof fn lemma_echo_suppressed(s: EndpointView, t: Seq<char>, w: Seq<char>)
    requires
        s.last_applied == Some(Payload::Text(t)),
        w != t,
    ensures
        poll_output(s, Some(Payload::Text(t))) is None,
        poll_output(poll_next(s, Some(Payload::Text(t))), Some(Payload::Text(w))) == Some(
            Payload::Text(w),
        ),
{
}

/// Type-change bypass: a candidate of the other kind than the update last
/// applied is always broadcast.
pub proof fn lemma_type_change_bypass(s: EndpointView, reading: Payload)
    requires
        candidate(s.last_text, Some(reading)) is Some,
        s.last_applied matches Some(a) && (a is Text) != (reading is Text),
    ensures
        poll_output(s, Some(reading)) == Some(reading),
{
}

} // verus!
