//! Sending a user's message: it is stored, the characters it is addressed
//! to are recorded, and the way it is answered is chosen; the replies of a
//! multi-character round, or the director's after a single answer, are
//! stored under the message they answer.
use vstd::prelude::*;

use crate::chat::{
    chat_error_text, conv_index, msg_ids, msg_index, stored_with, Chat, ChatError, ConversationError, MessageOrigin, OriginModel,
};
use crate::messages::{images_view, lemma_role_round_trip, role_name, ImageContent, MessageRole, MessageSource};
use crate::orchestrator::PalReply;
use crate::provider::{lemma_key_index_bounds, lemma_key_index_none};
use crate::registry::name_set;
use crate::rounds::UnlockedPals;
use crate::tools::opt_view;
use crate::turn::{fresh_ids, id_views};

verus! {

broadcast use vstd::string::group_string_axioms;

/// How a sent message is answered: by a round of the characters it is
/// addressed to, or by the default responder alone.
#[derive(Debug)]
pub enum SendPath {
    Multi(Vec<String>),
    Single,
}

/// Stores one message per id, in order, each with its text and origin,
/// from `role`, under `parent_id`. It succeeds exactly where the ids are new to the
/// store and to each other; otherwise the first id that is not fails it
/// with `DuplicateMessage`, the messages before it stored.
pub fn store_children(
    chat: &mut Chat,
    conversation_id: &str,
    parent_id: &str,
    ids: &Vec<String>,
    texts: &Vec<String>,
    role: MessageRole,
    origins: &Vec<MessageOrigin>,
) -> (r: Result<(), ChatError>)
    requires
        ids@.len() == texts@.len(),
        origins@.len() == ids@.len(),
    ensures
        final(chat).convs() == old(chat).convs(),
        old(chat).msgs().len() <= final(chat).msgs().len() <= old(chat).msgs().len() + ids@.len(),
        final(chat).msgs().subrange(0, old(chat).msgs().len() as int) == old(chat).msgs(),
        final(chat).links().len() == old(chat).links().len() + (final(chat).msgs().len() - old(chat).msgs().len()),
        final(chat).links().subrange(0, old(chat).links().len() as int) == old(chat).links(),
        forall|k: int|
            0 <= k < final(chat).msgs().len() - old(chat).msgs().len() ==> stored_with(
                #[trigger] final(chat).msgs()[old(chat).msgs().len() + k],
                ids@[k]@,
                texts@[k]@,
                None,
                role,
                None,
                None,
                origins@[k]@,
            ) && final(chat).links()[old(chat).links().len() + k].id@ == ids@[k]@ && opt_view(
                final(chat).links()[old(chat).links().len() + k].parent,
            ) == Some(parent_id@),
        r is Ok <==> fresh_ids(old(chat).msgs(), id_views(ids@)),
        r is Ok ==> final(chat).msgs().len() == old(chat).msgs().len() + ids@.len(),
        r matches Err(e) ==> exists|k: int|
            0 <= k < ids@.len() && fresh_ids(old(chat).msgs(), id_views(ids@).take(k)) && !fresh_ids(
                old(chat).msgs(),
                #[trigger] id_views(ids@).take(k + 1),
            ) && final(chat).msgs().len() == old(chat).msgs().len() + k && (e matches ChatError::DuplicateMessage(d)
                && d@ == ids@[k]@),
{
    let ghost m0 = chat.msgs();
    let ghost l0 = chat.links();
    let ghost v = id_views(ids@);
    let sender = role.to_string();
    proof {
        lemma_role_round_trip(role);
        assert(chat.msgs().subrange(0, m0.len() as int) =~= m0);
        assert(chat.links().subrange(0, l0.len() as int) =~= l0);
        assert(msg_ids(m0) =~= msg_ids(m0) + v.take(0));
    }
    let mut i: usize = 0;
    while i < ids.len()
        invariant
            i <= ids@.len(),
            ids@.len() == texts@.len(),
            origins@.len() == ids@.len(),
            sender@ == role_name(role),
            role_named_is(role),
            chat.convs() == old(chat).convs(),
            m0 == old(chat).msgs(),
            l0 == old(chat).links(),
            v == id_views(ids@),
            chat.msgs().len() == m0.len() + i,
            chat.msgs().subrange(0, m0.len() as int) == m0,
            chat.links().len() == l0.len() + i,
            chat.links().subrange(0, l0.len() as int) == l0,
            forall|k: int|
                0 <= k < i ==> stored_with(#[trigger] chat.msgs()[m0.len() + k], ids@[k]@, texts@[k]@, None, role, None, None, origins@[k]@)
                    && chat.links()[l0.len() + k].id@ == ids@[k]@ && opt_view(chat.links()[l0.len() + k].parent) == Some(
                    parent_id@,
                ),
            msg_ids(chat.msgs()) == msg_ids(m0) + v.take(i as int),
            fresh_ids(m0, v.take(i as int)),
        decreases ids.len() - i,
    {
        let ghost before = chat.msgs();
        let ghost lbefore = chat.links();
        let origin = MessageOrigin {
            source: origins[i].source,
            pal_id: crate::tools::opt_copy(&origins[i].pal_id),
            pal_name: crate::tools::opt_copy(&origins[i].pal_name),
            timestamp: origins[i].timestamp,
        };
        match chat.add_message_from(
            conversation_id,
            ids[i].as_str(),
            texts[i].as_str(),
            None,
            sender.as_str(),
            Some(parent_id),
            None,
            None,
            origin,
        ) {
            Ok(()) => {},
            Err(e) => {
                proof {
                    assert(chat.msgs() == before);
                    assert(chat.links() == lbefore);
                    assert(v[i as int] == ids@[i as int]@);
                    lemma_key_index_bounds(msg_ids(before), v[i as int], 0);
                    let j = msg_index(before, v[i as int]).unwrap();
                    let t = v.take(i + 1);
                    assert(msg_ids(before)[j] == v[i as int]);
                    assert(t[i as int] == v[i as int]);
                    if j < m0.len() {
                        assert(msg_ids(m0)[j] == (msg_ids(m0) + v.take(i as int))[j]);
                        assert(msg_ids(m0).contains(t[i as int]));
                    } else {
                        let a = j - m0.len();
                        assert((msg_ids(m0) + v.take(i as int))[j] == v.take(i as int)[a]);
                        assert(t[a] == t[i as int]);
                    }
                    assert(!fresh_ids(m0, t));
                    if fresh_ids(m0, v) {
                        assert forall|k: int| 0 <= k < t.len() implies !msg_ids(m0).contains(#[trigger] t[k]) by {
                            assert(t[k] == v[k]);
                        }
                        assert forall|a: int, b: int| 0 <= a < b < t.len() implies #[trigger] t[a] != #[trigger] t[b] by {
                            assert(t[a] == v[a] && t[b] == v[b]);
                        }
                    }
                }
                return Err(e);
            },
        }
        proof {
            let now = chat.msgs();
            assert(now.drop_last() == before);
            assert(v[i as int] == ids@[i as int]@);
            lemma_key_index_none(msg_ids(before), v[i as int]);
            let t = v.take(i + 1);
            let p = v.take(i as int);
            assert forall|k: int| 0 <= k < t.len() implies !msg_ids(m0).contains(#[trigger] t[k]) by {
                if k < i {
                    assert(t[k] == p[k]);
                } else {
                    if msg_ids(m0).contains(t[k]) {
                        let j = choose|j: int| 0 <= j < msg_ids(m0).len() && msg_ids(m0)[j] == t[k];
                        assert(msg_ids(before)[j] == (msg_ids(m0) + p)[j]);
                    }
                }
            }
            assert forall|a: int, b: int| 0 <= a < b < t.len() implies #[trigger] t[a] != #[trigger] t[b] by {
                if b < i {
                    assert(t[a] == p[a] && t[b] == p[b]);
                } else {
                    assert(t[a] == p[a]);
                    assert(msg_ids(before)[m0.len() + a] == (msg_ids(m0) + p)[m0.len() + a]);
                }
            }
            assert(msg_ids(now) =~= msg_ids(before).push(v[i as int]));
            assert(msg_ids(now) =~= msg_ids(m0) + t);
            assert(now.subrange(0, m0.len() as int) =~= before.subrange(0, m0.len() as int));
            assert forall|k: int| 0 <= k < i + 1 implies stored_with(
                #[trigger] now[m0.len() + k],
                ids@[k]@,
                texts@[k]@,
                None,
                role,
                None,
                None,
                origins@[k]@,
            ) && chat.links()[l0.len() + k].id@ == ids@[k]@ && opt_view(chat.links()[l0.len() + k].parent) == Some(
                parent_id@,
            ) by {
                if k < i {
                    assert(now[m0.len() + k] == before[m0.len() + k]);
                    assert(chat.links()[l0.len() + k] == lbefore[l0.len() + k]);
                } else {
                    assert(now[m0.len() + k] == now.last());
                    assert(chat.links()[l0.len() + k] == chat.links().last());
                }
            }
            assert(chat.links().subrange(0, l0.len() as int) =~= lbefore.subrange(0, l0.len() as int));
        }
        i = i + 1;
    }
    proof {
        assert(v.take(i as int) =~= v);
        assert forall|k: int| 0 <= k < chat.msgs().len() - m0.len() implies stored_with(
            #[trigger] chat.msgs()[m0.len() + k],
            ids@[k]@,
            texts@[k]@,
            None,
            role,
            None,
            None,
            origins@[k]@,
        ) && chat.links()[l0.len() + k].id@ == ids@[k]@ && opt_view(chat.links()[l0.len() + k].parent) == Some(
            parent_id@,
        ) by {
            assert(k < i);
        }
    }
    Ok(())
}

/// The role is read back from its name.
pub open spec fn role_named_is(role: MessageRole) -> bool {
    crate::messages::role_named(role_name(role)) == Some(role)
}

/// The text of a store error.
pub open spec fn send_error_text(e: ChatError) -> Seq<char> {
    chat_error_text(e)
}

/// Stores the user's message `user_message_id` under `parent` (as the
/// first message of the thread where there is none) and records the
/// characters it is addressed to; with some, it is answered by their
/// round, else by the default responder. It is stamped `now`. Where the
/// message cannot be
/// stored, nobody is recorded and the store's error comes back as text.
pub fn begin_send(
    chat: &mut Chat,
    unlocked: &mut UnlockedPals,
    conversation_id: &str,
    parent: Option<&str>,
    user_message_id: &str,
    text: &str,
    images: Option<Vec<ImageContent>>,
    target_pal_ids: &Option<Vec<String>>,
    now: i64,
) -> (r: Result<SendPath, String>)
    requires
        old(unlocked).wf(),
    ensures
        final(unlocked).wf(),
        match msg_index(old(chat).msgs(), user_message_id@) {
            Some(_) => (r matches Err(m) && m@ == "message already exists: "@ + user_message_id@) && final(chat).msgs()
                == old(chat).msgs() && final(chat).links() == old(chat).links(),
            None => {
                &&& final(chat).msgs().len() == old(chat).msgs().len() + 1
                &&& final(chat).msgs().drop_last() == old(chat).msgs()
                &&& stored_with(
                    final(chat).msgs().last(),
                    user_message_id@,
                    text@,
                    None,
                    MessageRole::User,
                    images_view(images),
                    None,
                    OriginModel { source: MessageSource::UserPrompted, pal_id: None, pal_name: None, timestamp: now },
                )
                &&& final(chat).links().len() == old(chat).links().len() + 1
                &&& final(chat).links().drop_last() == old(chat).links()
                &&& final(chat).links().last().id@ == user_message_id@
                &&& (parent is None && conv_index(old(chat).convs(), conversation_id@) is None) ==> (r matches Err(m)
                    && m@ == "conversation not found"@)
            },
        },
        r is Ok <==> msg_index(old(chat).msgs(), user_message_id@) is None && (parent is Some || conv_index(
            old(chat).convs(),
            conversation_id@,
        ) is Some),
        r is Err ==> final(unlocked).entries@ == old(unlocked).entries@,
        r is Ok ==> match target_pal_ids {
            Some(ids) => if ids@.len() > 0 {
                &&& r matches Ok(SendPath::Multi(t)) && id_views(t@) == id_views(ids@)
                &&& final(unlocked).has(conversation_id@)
                &&& final(unlocked).pals(conversation_id@) == old(unlocked).pals(conversation_id@).union(name_set(ids@))
                &&& forall|c: Seq<char>| c != conversation_id@ ==> final(unlocked).has(c) == old(unlocked).has(c)
                    && final(unlocked).pals(c) == old(unlocked).pals(c)
            } else {
                r matches Ok(SendPath::Single) && final(unlocked).entries@ == old(unlocked).entries@
            },
            None => r matches Ok(SendPath::Single) && final(unlocked).entries@ == old(unlocked).entries@,
        },
{
    let sender = MessageRole::User.to_string();
    proof {
        lemma_role_round_trip(MessageRole::User);
    }
    let origin = MessageOrigin { source: MessageSource::UserPrompted, pal_id: None, pal_name: None, timestamp: now };
    match chat.add_message_from(conversation_id, user_message_id, text, None, sender.as_str(), parent, images, None, origin) {
        Ok(()) => {},
        Err(e) => {
            proof {
                reveal_strlit("message already exists: ");
                reveal_strlit("conversation not found");
            }
            return Err(e.to_text());
        },
    }
    unlocked.record(conversation_id, target_pal_ids);
    match target_pal_ids {
        Some(ids) => {
            if ids.len() > 0 {
                let t = ids.clone();
                proof {
                    assert(id_views(t@) =~= id_views(ids@));
                }
                Ok(SendPath::Multi(t))
            } else {
                Ok(SendPath::Single)
            }
        },
        None => Ok(SendPath::Single),
    }
}

/// The ids of a round's replies.
pub open spec fn reply_ids(replies: Seq<PalReply>) -> Seq<Seq<char>> {
    replies.map_values(|r: PalReply| r.message_id@)
}

/// The origin of a stored reply: its source and character, at `now`.
pub open spec fn reply_origin(r: PalReply, now: i64) -> OriginModel {
    OriginModel { source: r.source, pal_id: Some(r.pal_id@), pal_name: Some(r.pal_name@), timestamp: now }
}

/// Stores the replies of a round under the message `parent_id` they
/// answer, in order, each as an assistant message of its text that keeps
/// its character and source, stamped `now`; returns
/// the last reply's id, or `parent_id` where there is none. It succeeds
/// exactly where the reply ids are new to the store and to each other;
/// otherwise the first that is not fails it, the replies before it stored.
pub fn store_replies(chat: &mut Chat, conversation_id: &str, parent_id: &str, replies: &[PalReply], now: i64) -> (r: Result<
    String,
    String,
>)
    ensures
        final(chat).convs() == old(chat).convs(),
        final(chat).msgs().subrange(0, old(chat).msgs().len() as int) == old(chat).msgs(),
        old(chat).msgs().len() <= final(chat).msgs().len() <= old(chat).msgs().len() + replies@.len(),
        final(chat).links().subrange(0, old(chat).links().len() as int) == old(chat).links(),
        forall|k: int|
            0 <= k < final(chat).msgs().len() - old(chat).msgs().len() ==> stored_with(
                #[trigger] final(chat).msgs()[old(chat).msgs().len() + k],
                replies@[k].message_id@,
                replies@[k].text@,
                None,
                MessageRole::Assistant,
                None,
                None,
                reply_origin(replies@[k], now),
            ) && final(chat).links()[old(chat).links().len() + k].id@ == replies@[k].message_id@ && opt_view(
                final(chat).links()[old(chat).links().len() + k].parent,
            ) == Some(parent_id@),
        r is Ok <==> fresh_ids(old(chat).msgs(), reply_ids(replies@)),
        r matches Ok(l) ==> final(chat).msgs().len() == old(chat).msgs().len() + replies@.len() && l@ == if replies@.len()
            > 0 {
            replies@.last().message_id@
        } else {
            parent_id@
        },
        r matches Err(m) ==> exists|k: int|
            0 <= k < replies@.len() && fresh_ids(old(chat).msgs(), reply_ids(replies@).take(k)) && !fresh_ids(
                old(chat).msgs(),
                #[trigger] reply_ids(replies@).take(k + 1),
            ) && m@ == "message already exists: "@ + replies@[k].message_id@,
{
    let mut ids: Vec<String> = Vec::new();
    let mut texts: Vec<String> = Vec::new();
    let mut origins: Vec<MessageOrigin> = Vec::new();
    let mut i: usize = 0;
    while i < replies.len()
        invariant
            i <= replies@.len(),
            ids@.len() == i,
            texts@.len() == i,
            origins@.len() == i,
            forall|k: int|
                0 <= k < i ==> (#[trigger] ids@[k])@ == replies@[k].message_id@ && texts@[k]@ == replies@[k].text@
                    && origins@[k]@ == reply_origin(replies@[k], now),
        decreases replies.len() - i,
    {
        let ghost bi = ids@;
        let ghost bt = texts@;
        let ghost bo = origins@;
        ids.push(replies[i].message_id.clone());
        texts.push(replies[i].text.clone());
        origins.push(
            MessageOrigin {
                source: replies[i].source,
                pal_id: Some(replies[i].pal_id.clone()),
                pal_name: Some(replies[i].pal_name.clone()),
                timestamp: now,
            },
        );
        proof {
            assert forall|k: int| 0 <= k < i + 1 implies (#[trigger] ids@[k])@ == replies@[k].message_id@ && texts@[k]@
                == replies@[k].text@ && origins@[k]@ == reply_origin(replies@[k], now) by {
                if k < i {
                    assert(ids@[k] == bi[k] && texts@[k] == bt[k] && origins@[k] == bo[k]);
                }
            }
        }
        i = i + 1;
    }
    proof {
        assert(id_views(ids@) =~= reply_ids(replies@));
    }
    match store_children(chat, conversation_id, parent_id, &ids, &texts, MessageRole::Assistant, &origins) {
        Ok(()) => {
            if replies.len() > 0 {
                Ok(replies[replies.len() - 1].message_id.clone())
            } else {
                Ok(parent_id.to_string())
            }
        },
        Err(e) => {
            proof {
                reveal_strlit("message already exists: ");
            }
            Err(e.to_text())
        },
    }
}

} // verus!
