//! The relay's decisions: which connected sessions a frame goes to, and
//! which incoming frames are fit to be published at all.

use crate::crypto::envelope_plaintext;
use crate::message::{carries, open_payload, opened};
use crate::protocol::Payload;
use vstd::prelude::*;

verus! {

/// The origin tag of a frame: the session it came from.
pub type SessionId = u64;

/// A session forwards a frame to its peer iff the frame did not come from it.
pub open spec fn forwards(origin: SessionId, own: SessionId) -> bool {
    origin != own
}

/// A frame from `origin` reaches `target` among the connected `sessions`.
pub open spec fn delivered(sessions: Seq<SessionId>, origin: SessionId, target: SessionId) -> bool {
    sessions.contains(target) && forwards(origin, target)
}

/// The write pump's rule: forward a published frame from `origin` to this
/// session's peer iff `origin` is not this session.
pub fn should_forward(origin: SessionId, own: SessionId) -> (r: bool)
    ensures
        r == forwards(origin, own),
{
    origin != own
}

/// The read pump's rule: publish a frame iff it opens under `key` to a
/// payload. A frame that fails is dropped and the session stays open.
pub fn admit_frame(envelope: &[u8], key: &[u8; 32]) -> (r: bool)
    ensures
        r == opened(key@, envelope@) is Some,
        envelope_plaintext(key@, envelope@) is None ==> !r,
        forall|d: Payload| #[trigger] carries(key@, envelope@, d) ==> r,
{
    open_payload(envelope, key).is_ok()
}

/// Every session but `id`.
pub open spec fn others(id: SessionId) -> spec_fn(SessionId) -> bool {
    |t: SessionId| t != id
}

proof fn lemma_filter_keeps_all(s: Seq<SessionId>, id: SessionId)
    requires
        forall|k: int| 0 <= k < s.len() ==> s[k] != id,
    ensures
        s.filter(others(id)) == s,
    decreases s.len(),
{
    if s.len() > 0 {
        let init = s.drop_last();
        lemma_filter_keeps_all(init, id);
        init.lemma_filter_push(s.last(), others(id));
        assert(init.push(s.last()) =~= s);
    } else {
        reveal(Seq::filter);
    }
}

/// The connected sessions, each under a tag that no other session has had.
pub struct Relay {
    sessions: Vec<SessionId>,
    next_id: SessionId,
}

impl Relay {
    /// The tags of the connected sessions.
    pub closed spec fn sessions(&self) -> Seq<SessionId> {
        self.sessions@
    }

    /// The tag the next session will get.
    pub closed spec fn next_id(&self) -> SessionId {
        self.next_id
    }

    /// Tags are distinct, and all below the next one to be given.
    pub closed spec fn wf(&self) -> bool {
        &&& self.sessions@.no_duplicates()
        &&& forall|i: int| 0 <= i < self.sessions@.len() ==> #[trigger] self.sessions@[i] < self.next_id
    }

    /// A relay with no session.
    pub fn new() -> (r: Relay)
        ensures
            r.wf(),
            r.sessions() == Seq::<SessionId>::empty(),
            r.next_id() == 0,
    {
        Relay { sessions: Vec::new(), next_id: 0 }
    }

    /// The number of connected sessions.
    pub fn len(&self) -> (r: usize)
        ensures
            r == self.sessions().len(),
    {
        self.sessions.len()
    }

    /// Connects a new session and gives its tag; `None` once every tag has
    /// been given.
    pub fn join(&mut self) -> (r: Option<SessionId>)
        requires
            old(self).wf(),
        ensures
            final(self).wf(),
            old(self).next_id() == SessionId::MAX ==> r is None && *final(self) == *old(self),
            old(self).next_id() < SessionId::MAX ==> r == Some(old(self).next_id())
                && final(self).sessions() == old(self).sessions().push(old(self).next_id())
                && final(self).next_id() == old(self).next_id() + 1,
    {
        if self.next_id == SessionId::MAX {
            return None;
        }
        let id = self.next_id;
        proof {
            assert(!self.sessions@.contains(id)) by {
                if self.sessions@.contains(id) {
                    let i = choose|i: int| 0 <= i < self.sessions@.len() && self.sessions@[i] == id;
                    assert(self.sessions@[i] < self.next_id);
                }
            }
        }
        self.sessions.push(id);
        self.next_id = id + 1;
        proof {
            assert forall|i: int| 0 <= i < self.sessions@.len() implies #[trigger] self.sessions@[i]
                < self.next_id by {
                if i < self.sessions@.len() - 1 {
                    assert(old(self).sessions@[i] < id);
                }
            }
            assert forall|i: int, j: int|
                0 <= i < self.sessions@.len() && 0 <= j < self.sessions@.len() && i != j implies self.sessions@[i]
                != self.sessions@[j] by {
                if i < self.sessions@.len() - 1 && j < self.sessions@.len() - 1 {
                    assert(old(self).sessions@[i] != old(self).sessions@[j]);
                } else if i < self.sessions@.len() - 1 {
                    assert(old(self).sessions@[i] < id);
                } else if j < self.sessions@.len() - 1 {
                    assert(old(self).sessions@[j] < id);
                }
            }
        }
        Some(id)
    }

    /// Disconnects session `id`; nothing changes when it is not connected.
    pub fn leave(&mut self, id: SessionId)
        requires
            old(self).wf(),
        ensures
            final(self).wf(),
            final(self).next_id() == old(self).next_id(),
            final(self).sessions() == old(self).sessions().filter(others(id)),
            final(self).sessions().to_set() == old(self).sessions().to_set().remove(id),
            final(self).sessions().len() <= old(self).sessions().len(),
    {
        let mut i: usize = 0;
        while i < self.sessions.len()
            invariant
                self.wf(),
                self.next_id == old(self).next_id,
                self.sessions@.to_set() == old(self).sessions@.to_set(),
                self.sessions@ == old(self).sessions@,
                forall|k: int| 0 <= k < i ==> self.sessions@[k] != id,
            decreases self.sessions@.len() - i,
        {
            if self.sessions[i] == id {
                let ghost before = self.sessions@;
                self.sessions.remove(i);
                proof {
                    assert(self.sessions@ =~= before.remove(i as int));
                    assert forall|a: int, b: int|
                        0 <= a < self.sessions@.len() && 0 <= b < self.sessions@.len() && a != b implies self.sessions@[a]
                        != self.sessions@[b] by {
                        let a2 = if a < i { a } else { a + 1 };
                        let b2 = if b < i { b } else { b + 1 };
                        assert(self.sessions@[a] == before[a2]);
                        assert(self.sessions@[b] == before[b2]);
                    }
                    assert forall|x: SessionId| self.sessions@.to_set().contains(x) == before.to_set().remove(id).contains(x) by {
                        if x == id {
                            if self.sessions@.contains(x) {
                                let k = choose|k: int| 0 <= k < self.sessions@.len() && self.sessions@[k] == x;
                                if k < i {
                                    assert(before[k] == x);
                                } else {
                                    assert(before[k + 1] == x);
                                }
                            }
                        } else if before.contains(x) {
                            let k = choose|k: int| 0 <= k < before.len() && before[k] == x;
                            if k < i {
                                assert(self.sessions@[k] == x);
                            } else {
                                assert(self.sessions@[k - 1] == x);
                            }
                        } else if self.sessions@.contains(x) {
                            let k = choose|k: int| 0 <= k < self.sessions@.len() && self.sessions@[k] == x;
                            if k < i {
                                assert(before[k] == x);
                            } else {
                                assert(before[k + 1] == x);
                            }
                        }
                    }
                    assert(self.sessions@.to_set() =~= before.to_set().remove(id));
                    let pre = before.subrange(0, i as int);
                    let post = before.subrange(i + 1, before.len() as int);
                    assert(before =~= pre.push(id) + post);
                    assert(self.sessions@ =~= pre + post);
                    lemma_filter_keeps_all(pre, id);
                    assert forall|k: int| 0 <= k < post.len() implies post[k] != id by {
                        assert(post[k] == before[i + 1 + k]);
                    }
                    lemma_filter_keeps_all(post, id);
                    pre.lemma_filter_push(id, others(id));
                    Seq::filter_distributes_over_add(pre.push(id), post, others(id));
                    Seq::filter_distributes_over_add(pre, post, others(id));
                    assert forall|k: int| 0 <= k < self.sessions@.len() implies #[trigger] self.sessions@[k] < self.next_id by {
                        if k < i {
                            assert(self.sessions@[k] == before[k]);
                        } else {
                            assert(self.sessions@[k] == before[k + 1]);
                        }
                    }
                }
                return;
            }
            i = i + 1;
        }
        proof {
            assert(!self.sessions@.contains(id));
            assert(self.sessions@.to_set() =~= old(self).sessions@.to_set().remove(id));
            lemma_filter_keeps_all(self.sessions@, id);
        }
    }

    /// The sessions a frame from `origin` is forwarded to: every connected
    /// session but `origin`, each once, in the order they joined.
    pub fn recipients(&self, origin: SessionId) -> (r: Vec<SessionId>)
        requires
            self.wf(),
        ensures
            r@ == self.sessions().filter(|t: SessionId| forwards(origin, t)),
            r@.no_duplicates(),
            forall|t: SessionId| r@.contains(t) <==> delivered(self.sessions(), origin, t),
    {
        let mut out: Vec<SessionId> = Vec::new();
        let mut i: usize = 0;
        while i < self.sessions.len()
            invariant
                self.wf(),
                i <= self.sessions@.len(),
                out@ == self.sessions@.subrange(0, i as int).filter(|t: SessionId| forwards(origin, t)),
                out@.no_duplicates(),
                forall|t: SessionId|
                    out@.contains(t) <==> (self.sessions@.subrange(0, i as int).contains(t) && t
                        != origin),
            decreases self.sessions@.len() - i,
        {
            let s = self.sessions[i];
            let ghost seen = self.sessions@.subrange(0, i as int);
            let ghost seen_next = self.sessions@.subrange(0, i + 1);
            proof {
                assert forall|t: SessionId| seen_next.contains(t) <==> (seen.contains(t) || t == s) by {
                    if seen.contains(t) {
                        let k = choose|k: int| 0 <= k < seen.len() && seen[k] == t;
                        assert(seen_next[k] == t);
                    }
                    if t == s {
                        assert(seen_next[i as int] == t);
                    }
                    if seen_next.contains(t) {
                        let k = choose|k: int| 0 <= k < seen_next.len() && seen_next[k] == t;
                        if k < i {
                            assert(seen[k] == t);
                        }
                    }
                }
                assert(!seen.contains(s)) by {
                    if seen.contains(s) {
                        let k = choose|k: int| 0 <= k < seen.len() && seen[k] == s;
                        assert(self.sessions@[k] == self.sessions@[i as int]);
                    }
                }
            }
            if should_forward(origin, s) {
                let ghost prev = out@;
                out.push(s);
                proof {
                    assert forall|t: SessionId| out@.contains(t) <==> (prev.contains(t) || t == s) by {
                        if prev.contains(t) {
                            let j = choose|j: int| 0 <= j < prev.len() && prev[j] == t;
                            assert(out@[j] == t);
                        }
                        if t == s {
                            assert(out@[prev.len() as int] == t);
                        }
                        if out@.contains(t) {
                            let j = choose|j: int| 0 <= j < out@.len() && out@[j] == t;
                            if j < prev.len() {
                                assert(prev[j] == t);
                            }
                        }
                    }
                    assert forall|a: int, b: int|
                        0 <= a < out@.len() && 0 <= b < out@.len() && a != b implies out@[a]
                        != out@[b] by {
                        if a < prev.len() && b < prev.len() {
                            assert(prev[a] != prev[b]);
                        } else if a < prev.len() {
                            assert(prev.contains(out@[a]));
                        } else if b < prev.len() {
                            assert(prev.contains(out@[b]));
                        }
                    }
                    assert forall|t: SessionId|
                        out@.contains(t) <==> (seen_next.contains(t) && t != origin) by {
                        assert(prev.contains(t) <==> (seen.contains(t) && t != origin));
                    }
                }
            } else {
                proof {
                    assert forall|t: SessionId|
                        out@.contains(t) <==> (seen_next.contains(t) && t != origin) by {
                        assert(out@.contains(t) <==> (seen.contains(t) && t != origin));
                    }
                }
            }
            proof {
                assert(seen_next =~= seen.push(s));
                seen.lemma_filter_push(s, |t: SessionId| forwards(origin, t));
            }
            i = i + 1;
            proof {
                assert(self.sessions@.subrange(0, i as int) =~= seen_next);
            }
        }
        proof {
            assert(self.sessions@.subrange(0, i as int) =~= self.sessions@);
        }
        out
    }
}

/// No self-echo: with sessions `a` and `b` connected, a frame from `a`
/// reaches `b` and never `a`.
pub proof fn lemma_no_self_echo(sessions: Seq<SessionId>, a: SessionId, b: SessionId)
    requires
        sessions.contains(a),
        sessions.contains(b),
        a != b,
    ensures
        delivered(sessions, a, b),
        !delivered(sessions, a, a),
{
}

/// Fan-out: with sessions `a`, `b` and `c` connected, a frame from `a`
/// reaches both `b` and `c`.
pub proof fn lemma_fan_out(sessions: Seq<SessionId>, a: SessionId, b: SessionId, c: SessionId)
    requires
        sessions.contains(a),
        sessions.contains(b),
        sessions.contains(c),
        a != b,
        a != c,
        b != c,
    ensures
        delivered(sessions, a, b),
        delivered(sessions, a, c),
{
}

} // verus!
