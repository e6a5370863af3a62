//! The streams that can still be aborted, each with the cancellation token
//! its task watches.
use vstd::prelude::*;

use tokio_util::sync::CancellationToken;

use crate::json::{key_index_from, lemma_key_index_skip};
use crate::provider::{lemma_key_index_bounds, lemma_key_push_new, lemma_key_push_other, lemma_key_remove_unique, unique_names};
use crate::text::{owned, str_eq};

verus! {

broadcast use vstd::string::group_string_axioms;

/// `tokio_util::sync::CancellationToken`, handed out and kept.
#[verifier::external_type_specification]
#[verifier::external_body]
pub struct ExCancellationToken(CancellationToken);

/// `CancellationToken::new`: a fresh token. Nothing is claimed of it.
#[verifier::external_body]
fn new_token() -> CancellationToken {
    CancellationToken::new()
}

/// `CancellationToken::clone`: another handle to the same token. Nothing is
/// claimed of it.
#[verifier::external_body]
fn share_token(token: &CancellationToken) -> CancellationToken {
    token.clone()
}

/// `CancellationToken::cancel`: cancels the token, for every handle to it.
/// Nothing is claimed of its effect.
#[verifier::external_body]
fn cancel_token(token: &CancellationToken) {
    token.cancel()
}

/// The streams that can be aborted, by stream id, each once.
pub struct AbortRegistry {
    tokens: Vec<(String, CancellationToken)>,
}

/// The stream ids of a run of entries.
pub open spec fn stream_ids(v: Seq<(String, CancellationToken)>) -> Seq<Seq<char>> {
    v.map_values(|e: (String, CancellationToken)| e.0@)
}

impl AbortRegistry {
    /// The ids of the streams that can be aborted, in registration order.
    pub closed spec fn ids(&self) -> Seq<Seq<char>> {
        stream_ids(self.tokens@)
    }

    /// Each stream is registered once.
    pub open spec fn wf(&self) -> bool {
        unique_names(self.ids())
    }

    /// Whether the stream can be aborted.
    pub open spec fn has(&self, stream_id: Seq<char>) -> bool {
        self.ids().contains(stream_id)
    }

    /// No stream.
    pub fn new() -> (r: Self)
        ensures
            r.wf(),
            r.ids().len() == 0,
    {
        let r = AbortRegistry { tokens: Vec::new() };
        assert(r.ids() =~= Seq::<Seq<char>>::empty());
        r
    }

    fn find(&self, stream_id: &str) -> (r: Option<usize>)
        ensures
            match r {
                Some(i) => key_index_from(self.ids(), stream_id@, 0) == Some(i as int) && i < self.ids().len(),
                None => key_index_from(self.ids(), stream_id@, 0) is None,
            },
    {
        let ghost ids = stream_ids(self.tokens@);
        let mut i: usize = 0;
        while i < self.tokens.len()
            invariant
                i <= self.tokens@.len(),
                ids == stream_ids(self.tokens@),
                forall|j: int| 0 <= j < i ==> ids[j] != stream_id@,
            decreases self.tokens.len() - i,
        {
            if str_eq(self.tokens[i].0.as_str(), stream_id) {
                proof {
                    lemma_key_index_skip(ids, stream_id@, i as int);
                }
                return Some(i);
            }
            i = i + 1;
        }
        proof {
            lemma_key_index_skip(ids, stream_id@, i as int);
        }
        None
    }

    /// Takes the stream out, if it is registered.
    fn take(&mut self, stream_id: &str) -> (r: Option<CancellationToken>)
        requires
            old(self).wf(),
        ensures
            final(self).wf(),
            r is Some == old(self).has(stream_id@),
            final(self).ids().to_set() == old(self).ids().to_set().remove(stream_id@),
    {
        let ghost ids0 = self.ids();
        match self.find(stream_id) {
            Some(i) => {
                proof {
                    lemma_key_index_bounds(ids0, stream_id@, 0);
                    lemma_key_remove_unique(ids0, i as int);
                }
                let (_, token) = self.tokens.remove(i);
                proof {
                    assert(self.ids() =~= ids0.remove(i as int));
                    assert forall|a: int, b: int| 0 <= a < b < self.ids().len() implies self.ids()[a] != self.ids()[b] by {
                        let oa = if a < i { a } else { a + 1 };
                        let ob = if b < i { b } else { b + 1 };
                        assert(self.ids()[a] == ids0[oa]);
                        assert(self.ids()[b] == ids0[ob]);
                    }
                    assert forall|x: Seq<char>| self.ids().to_set().contains(x) == ids0.to_set().remove(stream_id@).contains(x) by {
                        if self.ids().contains(x) {
                            let k = choose|k: int| 0 <= k < self.ids().len() && self.ids()[k] == x;
                            let ok = if k < i { k } else { k + 1 };
                            assert(ids0[ok] == x);
                            crate::provider::lemma_key_index_none(ids0.remove(i as int), stream_id@);
                        }
                        if ids0.contains(x) && x != stream_id@ {
                            let k = choose|k: int| 0 <= k < ids0.len() && ids0[k] == x;
                            assert(k != i);
                            let nk = if k < i { k } else { k - 1 };
                            assert(self.ids()[nk] == x);
                        }
                    }
                    assert(self.ids().to_set() =~= ids0.to_set().remove(stream_id@));
                    assert(ids0.contains(stream_id@)) by {
                        assert(ids0[i as int] == stream_id@);
                    }
                }
                Some(token)
            },
            None => {
                proof {
                    crate::provider::lemma_key_index_none(ids0, stream_id@);
                    assert(ids0.to_set() =~= ids0.to_set().remove(stream_id@));
                }
                None
            },
        }
    }

    /// Registers a stream, replacing a token registered under its id, and
    /// hands out a handle to its new token.
    pub fn register(&mut self, stream_id: &str) -> (r: CancellationToken)
        requires
            old(self).wf(),
        ensures
            final(self).wf(),
            final(self).ids().to_set() == old(self).ids().to_set().insert(stream_id@),
    {
        let ghost ids0 = self.ids();
        let _ = self.take(stream_id);
        let ghost ids1 = self.ids();
        let token = new_token();
        let handle = share_token(&token);
        proof {
            assert(!ids0.to_set().remove(stream_id@).contains(stream_id@));
            assert(!ids1.to_set().contains(stream_id@));
            assert(!ids1.contains(stream_id@));
        }
        self.tokens.push((owned(stream_id), token));
        proof {
            assert(self.ids() =~= ids1.push(stream_id@));
            assert forall|a: int, b: int| 0 <= a < b < self.ids().len() implies self.ids()[a] != self.ids()[b] by {
                if b == ids1.len() {
                    assert(self.ids()[a] == ids1[a]);
                    assert(ids1.contains(ids1[a]));
                }
            }
            assert forall|x: Seq<char>| self.ids().contains(x) == (ids1.contains(x) || x == stream_id@) by {
                if self.ids().contains(x) {
                    let k = choose|k: int| 0 <= k < self.ids().len() && self.ids()[k] == x;
                    if k < ids1.len() {
                        assert(ids1[k] == x);
                    }
                }
                if ids1.contains(x) {
                    let k = choose|k: int| 0 <= k < ids1.len() && ids1[k] == x;
                    assert(self.ids()[k] == x);
                }
                if x == stream_id@ {
                    assert(self.ids()[ids1.len() as int] == x);
                }
            }
            assert(self.ids().to_set() =~= ids1.to_set().insert(stream_id@));
            assert(ids1.to_set().insert(stream_id@) =~= ids0.to_set().insert(stream_id@));
        }
        handle
    }

    /// Cancels and forgets the stream's token; whether it was registered.
    pub fn cancel(&mut self, stream_id: &str) -> (r: bool)
        requires
            old(self).wf(),
        ensures
            final(self).wf(),
            r == old(self).has(stream_id@),
            final(self).ids().to_set() == old(self).ids().to_set().remove(stream_id@),
    {
        match self.take(stream_id) {
            Some(token) => {
                cancel_token(&token);
                true
            },
            None => false,
        }
    }

    /// Forgets the stream's token without cancelling it.
    pub fn unregister(&mut self, stream_id: &str)
        requires
            old(self).wf(),
        ensures
            final(self).wf(),
            final(self).ids().to_set() == old(self).ids().to_set().remove(stream_id@),
    {
        let _ = self.take(stream_id);
    }
}

/// A stream just registered can be cancelled.
pub proof fn law_registered_stream_can_be_cancelled(registry: AbortRegistry, before: Seq<Seq<char>>, stream_id: Seq<char>)
    requires
        registry.ids().to_set() == before.to_set().insert(stream_id),
    ensures
        registry.has(stream_id),
{
    assert(registry.ids().to_set().contains(stream_id));
}

} // verus!
