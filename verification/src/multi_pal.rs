//! A round in which several characters answer one user message, each in
//! turn, after which a director may call in one more. The round is a state
//! machine: each step names the character to ask and the messages to ask
//! from, and the application brings back the answer.
use vstd::prelude::*;

use crate::character::{same_character, Character};
use crate::chat::{contains_id, str_views};
use crate::director::{assemble_director_prompt, director_decision, director_prompt, parse_director_response, pal_line, pal_lines};
use crate::json::{key_index_from, lemma_key_index_skip};
use crate::messages::{Message, MessageRole, MessageSource};
use crate::orchestrator::{bare, build_context_for_pal, is_pal_context, PalReply};
use crate::provider::lemma_key_index_bounds;
use crate::text::{join, owned, push_str, str_eq, views};

verus! {

broadcast use vstd::string::group_string_axioms;

/// Where a round stands: waiting for the answer of the target at this
/// position, of the director, of the character at this position called in
/// by the director, or over.
#[derive(Debug, Clone, Copy, PartialEq, Eq, Structural)]
pub enum RoundPhase {
    Pal(usize),
    Director,
    Directed(usize),
    Finished,
}

/// What the round asks for next.
#[derive(Debug)]
pub enum PalStep {
    /// Ask the model, with this character's settings, to answer these
    /// messages.
    Ask { pal: Character, context: Vec<Message> },
    /// The round is over, with these replies in order.
    Done(Vec<PalReply>),
    /// The round failed with this message.
    Fail(String),
}

/// A round of several characters answering one user message.
pub struct MultiPalRound {
    pub conversation_id: String,
    pub user_message_id: String,
    pub targets: Vec<String>,
    pub characters: Vec<Character>,
    pub replies: Vec<PalReply>,
    pub phase: RoundPhase,
}

/// The ids of a run of characters.
pub open spec fn character_ids(cs: Seq<Character>) -> Seq<Seq<char>> {
    cs.map_values(|c: Character| c.id@)
}

/// The first character with this id.
pub open spec fn character_index(cs: Seq<Character>, id: Seq<char>) -> Option<int> {
    key_index_from(character_ids(cs), id, 0)
}

/// The characters among the first `n` whose id is one of `targets`, in
/// order.
pub open spec fn unlocked_upto(cs: Seq<Character>, targets: Seq<Seq<char>>, n: int) -> Seq<Character>
    decreases n,
{
    if n <= 0 || n > cs.len() {
        Seq::empty()
    } else if targets.contains(cs[n - 1].id@) {
        unlocked_upto(cs, targets, n - 1).push(cs[n - 1])
    } else {
        unlocked_upto(cs, targets, n - 1)
    }
}

/// The characters the round's targets unlock, in the order they are kept.
pub open spec fn unlocked(cs: Seq<Character>, targets: Seq<Seq<char>>) -> Seq<Character> {
    unlocked_upto(cs, targets, cs.len() as int)
}

/// The lines the director reads: `name: text` for each reply.
pub open spec fn recent_lines(replies: Seq<PalReply>) -> Seq<Seq<char>> {
    replies.map_values(|r: PalReply| r.pal_name@ + ": "@ + r.text@)
}

/// The one message the director is asked with.
pub open spec fn is_director_message(m: Message, prompt: Seq<char>) -> bool {
    &&& bare(m)
    &&& m.id@ == "director-prompt"@
    &&& m.text@ == prompt
    &&& m.sender == MessageRole::User
    &&& m.source == MessageSource::UserPrompted
    &&& m.pal_id is None
    &&& m.pal_name is None
}

/// Two replies that agree in every field.
pub open spec fn same_reply(a: PalReply, b: PalReply) -> bool {
    &&& a.message_id@ == b.message_id@
    &&& a.pal_id@ == b.pal_id@
    &&& a.pal_name@ == b.pal_name@
    &&& a.text@ == b.text@
    &&& a.source == b.source
}

/// Replies that agree one for one.
pub open spec fn same_replies(a: Seq<PalReply>, b: Seq<PalReply>) -> bool {
    &&& a.len() == b.len()
    &&& forall|i: int| 0 <= i < a.len() ==> same_reply(#[trigger] a[i], b[i])
}

/// The reply a character gives in a round: its id names how it came
/// (`pal-` for a target, `directed-` for the director's choice), the
/// character and the user message.
pub open spec fn is_round_reply(r: PalReply, prefix: Seq<char>, pal: Character, user_message_id: Seq<char>, text: Seq<char>, source: MessageSource) -> bool {
    &&& r.message_id@ == prefix + pal.id@ + "-"@ + user_message_id
    &&& r.pal_id@ == pal.id@
    &&& r.pal_name@ == pal.name@
    &&& r.text@ == text
    &&& r.source == source
}

impl MultiPalRound {
    /// Each phase that waits points at a character that exists.
    pub open spec fn wf(&self) -> bool {
        match self.phase {
            RoundPhase::Pal(k) => k < self.targets@.len() && character_index(self.characters@, self.targets@[k as int]@) is Some,
            RoundPhase::Directed(j) => j < self.characters@.len(),
            _ => true,
        }
    }

    /// The step that asks, or fails, for the target at position `k`.
    pub open spec fn target_step(&self, k: int, step: PalStep) -> bool {
        match character_index(self.characters@, self.targets@[k]@) {
            None => (step matches PalStep::Fail(m) && m@ == "Pal not found: "@ + self.targets@[k]@) && self.phase
                == RoundPhase::Finished,
            Some(j) => (step matches PalStep::Ask { pal, context } && same_character(pal, self.characters@[j])
                && is_pal_context(context@, self.replies@, self.characters@[j])) && self.phase == RoundPhase::Pal(
                k as usize,
            ),
        }
    }

    /// The step that asks the director, or ends the round where no
    /// target is a known character.
    pub open spec fn director_step(&self, step: PalStep) -> bool {
        let avail = unlocked(self.characters@, views(self.targets@));
        if avail.len() == 0 {
            (step matches PalStep::Done(v) && same_replies(v@, self.replies@)) && self.phase == RoundPhase::Finished
        } else {
            (step matches PalStep::Ask { pal, context } && same_character(pal, avail[0]) && context@.len() == 1
                && is_director_message(context@[0], director_prompt(recent_lines(self.replies@), avail)))
                && self.phase == RoundPhase::Director
        }
    }

    /// The step after the targets' answers from position `k` on: the next
    /// target's, or the director's.
    pub open spec fn step_from(&self, k: int, step: PalStep) -> bool {
        if k < self.targets@.len() {
            self.target_step(k, step)
        } else {
            self.director_step(step)
        }
    }
}

fn copy_reply(r: &PalReply) -> (out: PalReply)
    ensures
        same_reply(out, *r),
{
    PalReply {
        message_id: r.message_id.clone(),
        pal_id: r.pal_id.clone(),
        pal_name: r.pal_name.clone(),
        text: r.text.clone(),
        source: r.source,
    }
}

fn copy_replies(v: &Vec<PalReply>) -> (out: Vec<PalReply>)
    ensures
        same_replies(out@, v@),
{
    let mut out: Vec<PalReply> = Vec::new();
    let mut i: usize = 0;
    while i < v.len()
        invariant
            i <= v@.len(),
            out@.len() == i,
            forall|k: int| 0 <= k < i ==> same_reply(#[trigger] out@[k], v@[k]),
        decreases v.len() - i,
    {
        out.push(copy_reply(&v[i]));
        i = i + 1;
    }
    out
}

fn find_character(cs: &Vec<Character>, id: &str) -> (r: Option<usize>)
    ensures
        match r {
            Some(j) => character_index(cs@, id@) == Some(j as int) && j < cs@.len(),
            None => character_index(cs@, id@) is None,
        },
{
    let ghost ids = character_ids(cs@);
    let mut i: usize = 0;
    while i < cs.len()
        invariant
            i <= cs@.len(),
            ids == character_ids(cs@),
            forall|k: int| 0 <= k < i ==> ids[k] != id@,
        decreases cs.len() - i,
    {
        if str_eq(cs[i].id.as_str(), id) {
            proof {
                lemma_key_index_skip(ids, id@, i as int);
            }
            return Some(i);
        }
        i = i + 1;
    }
    proof {
        lemma_key_index_skip(ids, id@, i as int);
    }
    None
}

proof fn lemma_pal_lines_same(a: Seq<Character>, b: Seq<Character>)
    requires
        a.len() == b.len(),
        forall|i: int| 0 <= i < a.len() ==> same_character(#[trigger] a[i], b[i]),
    ensures
        pal_lines(a) == pal_lines(b),
{
    assert forall|i: int| 0 <= i < a.len() implies #[trigger] pal_lines(a)[i] == pal_lines(b)[i] by {
        assert(same_character(a[i], b[i]));
    }
    assert(pal_lines(a) =~= pal_lines(b));
}

fn reply_for(prefix: &str, pal: &Character, user_message_id: &str, text: String, source: MessageSource) -> (r: PalReply)
    ensures
        is_round_reply(r, prefix@, *pal, user_message_id@, text@, source),
{
    let mut id = owned(prefix);
    push_str(&mut id, pal.id.as_str());
    push_str(&mut id, "-");
    push_str(&mut id, user_message_id);
    PalReply { message_id: id, pal_id: pal.id.clone(), pal_name: pal.name.clone(), text, source }
}

impl MultiPalRound {
    /// Asks, or fails, for the target at position `k`.
    fn ask_target(&mut self, k: usize) -> (step: PalStep)
        requires
            k < old(self).targets@.len(),
        ensures
            final(self).conversation_id == old(self).conversation_id,
            final(self).user_message_id == old(self).user_message_id,
            final(self).targets == old(self).targets,
            final(self).characters == old(self).characters,
            final(self).replies == old(self).replies,
            final(self).wf(),
            final(self).target_step(k as int, step),
    {
        match find_character(&self.characters, self.targets[k].as_str()) {
            None => {
                self.phase = RoundPhase::Finished;
                let mut m = owned("Pal not found: ");
                push_str(&mut m, self.targets[k].as_str());
                PalStep::Fail(m)
            },
            Some(j) => {
                self.phase = RoundPhase::Pal(k);
                let pal = self.characters[j].clone();
                let context = match build_context_for_pal(self.conversation_id.as_str(), self.replies.as_slice(), &self.characters[j]) {
                    Ok(c) => c,
                    Err(_) => Vec::new(),
                };
                PalStep::Ask { pal, context }
            },
        }
    }

    /// Asks the director, or ends the round where no target is a known
    /// character.
    fn ask_director(&mut self) -> (step: PalStep)
        ensures
            final(self).conversation_id == old(self).conversation_id,
            final(self).user_message_id == old(self).user_message_id,
            final(self).targets == old(self).targets,
            final(self).characters == old(self).characters,
            final(self).replies == old(self).replies,
            final(self).wf(),
            final(self).director_step(step),
    {
        let ghost tv = views(self.targets@);
        let mut avail: Vec<Character> = Vec::new();
        let mut i: usize = 0;
        while i < self.characters.len()
            invariant
                i <= self.characters@.len(),
                tv == views(self.targets@),
                avail@.len() == unlocked_upto(self.characters@, tv, i as int).len(),
                forall|k: int| 0 <= k < avail@.len() ==> same_character(#[trigger] avail@[k], unlocked_upto(self.characters@, tv, i as int)[k]),
            decreases self.characters.len() - i,
        {
            proof {
                assert(str_views(self.targets@) == views(self.targets@)) by {
                    assert(str_views(self.targets@) =~= views(self.targets@));
                }
            }
            if contains_id(&self.targets, self.characters[i].id.as_str()) {
                avail.push(self.characters[i].clone());
            }
            i = i + 1;
        }
        let ghost want = unlocked(self.characters@, tv);
        if avail.len() == 0 {
            self.phase = RoundPhase::Finished;
            return PalStep::Done(copy_replies(&self.replies));
        }
        let mut lines: Vec<String> = Vec::new();
        let mut r: usize = 0;
        while r < self.replies.len()
            invariant
                r <= self.replies@.len(),
                lines@.len() == r,
                forall|k: int| 0 <= k < r ==> (#[trigger] lines@[k])@ == self.replies@[k].pal_name@ + ": "@ + self.replies@[k].text@,
            decreases self.replies.len() - r,
        {
            let mut line = self.replies[r].pal_name.clone();
            push_str(&mut line, ": ");
            push_str(&mut line, self.replies[r].text.as_str());
            lines.push(line);
            r = r + 1;
        }
        proof {
            assert(views(lines@) =~= recent_lines(self.replies@));
            lemma_pal_lines_same(avail@, want);
        }
        let prompt = assemble_director_prompt(lines.as_slice(), avail.as_slice());
        let mut context: Vec<Message> = Vec::new();
        context.push(Message {
            id: owned("director-prompt"),
            text: prompt,
            reasoning: None,
            sender: MessageRole::User,
            timestamp: 0,
            tokens: None,
            embedding: None,
            images: None,
            tool_calls: None,
            source: MessageSource::UserPrompted,
            pal_id: None,
            pal_name: None,
        });
        self.phase = RoundPhase::Director;
        let pal = avail[0].clone();
        PalStep::Ask { pal, context }
    }

    /// Starts a round: the first target is asked, or, with no targets, the
    /// director is.
    pub fn start(conversation_id: String, user_message_id: String, targets: Vec<String>, characters: Vec<Character>) -> (r: (
        MultiPalRound,
        PalStep,
    ))
        ensures
            r.0.conversation_id == conversation_id,
            r.0.user_message_id == user_message_id,
            r.0.targets == targets,
            r.0.characters == characters,
            r.0.replies@.len() == 0,
            r.0.wf(),
            r.0.step_from(0, r.1),
    {
        let mut round = MultiPalRound {
            conversation_id,
            user_message_id,
            targets,
            characters,
            replies: Vec::new(),
            phase: RoundPhase::Finished,
        };
        let step = if round.targets.len() > 0 {
            round.ask_target(0)
        } else {
            round.ask_director()
        };
        (round, step)
    }

    /// Starts a round in which only the director is asked, choosing among
    /// the characters `unlocked` names; without any it ends at once.
    pub fn start_director(
        conversation_id: String,
        user_message_id: String,
        unlocked: Vec<String>,
        characters: Vec<Character>,
    ) -> (r: (MultiPalRound, PalStep))
        ensures
            r.0.conversation_id == conversation_id,
            r.0.user_message_id == user_message_id,
            r.0.targets == unlocked,
            r.0.characters == characters,
            r.0.replies@.len() == 0,
            r.0.wf(),
            r.0.director_step(r.1),
    {
        let mut round = MultiPalRound {
            conversation_id,
            user_message_id,
            targets: unlocked,
            characters,
            replies: Vec::new(),
            phase: RoundPhase::Finished,
        };
        let step = round.ask_director();
        (round, step)
    }

    /// Takes the answer to the last step. A target's answer becomes its
    /// reply (`pal-{id}-{user message}`) and the next target, or the
    /// director, is asked. The director's answer calls in the character it
    /// names (refused where none has that id) or ends the round. The called
    /// character's answer becomes its reply (`directed-{id}-{user
    /// message}`, marked as directed) and ends the round. A finished round
    /// stays finished.
    pub fn on_reply(&mut self, text: String) -> (step: PalStep)
        requires
            old(self).wf(),
        ensures
            final(self).wf(),
            final(self).conversation_id == old(self).conversation_id,
            final(self).user_message_id == old(self).user_message_id,
            final(self).targets == old(self).targets,
            final(self).characters == old(self).characters,
            match old(self).phase {
                RoundPhase::Pal(k) => {
                    let j = character_index(old(self).characters@, old(self).targets@[k as int]@).unwrap();
                    &&& final(self).replies@.len() == old(self).replies@.len() + 1
                    &&& final(self).replies@.drop_last() == old(self).replies@
                    &&& is_round_reply(
                        final(self).replies@.last(),
                        "pal-"@,
                        old(self).characters@[j],
                        old(self).user_message_id@,
                        text@,
                        MessageSource::UserPrompted,
                    )
                    &&& final(self).step_from(k + 1, step)
                },
                RoundPhase::Director => {
                    let d = director_decision(text@);
                    &&& final(self).replies == old(self).replies
                    &&& if d.0 && d.1 is Some {
                        match character_index(old(self).characters@, d.1.unwrap()) {
                            None => (step matches PalStep::Fail(m) && m@ == "Director invoked unknown pal: "@ + d.1.unwrap())
                                && final(self).phase == RoundPhase::Finished,
                            Some(j) => (step matches PalStep::Ask { pal, context } && same_character(pal, old(self).characters@[j])
                                && is_pal_context(context@, old(self).replies@, old(self).characters@[j]))
                                && final(self).phase == RoundPhase::Directed(j as usize),
                        }
                    } else {
                        (step matches PalStep::Done(v) && same_replies(v@, old(self).replies@)) && final(self).phase
                            == RoundPhase::Finished
                    }
                },
                RoundPhase::Directed(j) => {
                    &&& final(self).replies@.len() == old(self).replies@.len() + 1
                    &&& final(self).replies@.drop_last() == old(self).replies@
                    &&& is_round_reply(
                        final(self).replies@.last(),
                        "directed-"@,
                        old(self).characters@[j as int],
                        old(self).user_message_id@,
                        text@,
                        MessageSource::Directed,
                    )
                    &&& (step matches PalStep::Done(v) && same_replies(v@, final(self).replies@))
                    &&& final(self).phase == RoundPhase::Finished
                },
                RoundPhase::Finished => (step matches PalStep::Done(v) && same_replies(v@, old(self).replies@))
                    && final(self).replies == old(self).replies && final(self).phase == RoundPhase::Finished,
            },
    {
        match self.phase {
            RoundPhase::Pal(k) => {
                assert(k < self.targets@.len());
                let j = match find_character(&self.characters, self.targets[k].as_str()) {
                    Some(j) => j,
                    None => {
                        proof {
                            assert(false);
                        }
                        0
                    },
                };
                let reply = reply_for("pal-", &self.characters[j], self.user_message_id.as_str(), text, MessageSource::UserPrompted);
                let ghost before = self.replies@;
                self.replies.push(reply);
                proof {
                    assert(self.replies@.drop_last() =~= before);
                }
                if k < self.targets.len() - 1 {
                    self.ask_target(k + 1)
                } else {
                    self.ask_director()
                }
            },
            RoundPhase::Director => {
                let decision = parse_director_response(text.as_str());
                if decision.should_invoke {
                    match decision.target_pal_id {
                        Some(pal_id) => match find_character(&self.characters, pal_id.as_str()) {
                            None => {
                                self.phase = RoundPhase::Finished;
                                let mut m = owned("Director invoked unknown pal: ");
                                push_str(&mut m, pal_id.as_str());
                                PalStep::Fail(m)
                            },
                            Some(j) => {
                                self.phase = RoundPhase::Directed(j);
                                let pal = self.characters[j].clone();
                                let context = match build_context_for_pal(
                                    self.conversation_id.as_str(),
                                    self.replies.as_slice(),
                                    &self.characters[j],
                                ) {
                                    Ok(c) => c,
                                    Err(_) => Vec::new(),
                                };
                                PalStep::Ask { pal, context }
                            },
                        },
                        None => {
                            self.phase = RoundPhase::Finished;
                            PalStep::Done(copy_replies(&self.replies))
                        },
                    }
                } else {
                    self.phase = RoundPhase::Finished;
                    PalStep::Done(copy_replies(&self.replies))
                }
            },
            RoundPhase::Directed(j) => {
                let reply = reply_for("directed-", &self.characters[j], self.user_message_id.as_str(), text, MessageSource::Directed);
                let ghost before = self.replies@;
                self.replies.push(reply);
                proof {
                    assert(self.replies@.drop_last() =~= before);
                }
                self.phase = RoundPhase::Finished;
                PalStep::Done(copy_replies(&self.replies))
            },
            RoundPhase::Finished => PalStep::Done(copy_replies(&self.replies)),
        }
    }
}

/// The message a reply is shown as: the assistant's, keeping the
/// character and how the reply came, stamped with `timestamp`.
pub fn reply_message(reply: &PalReply, timestamp: i64) -> (m: Message)
    ensures
        m.id@ == reply.message_id@,
        m.text@ == reply.text@,
        m.reasoning is None,
        m.sender == MessageRole::Assistant,
        m.timestamp == timestamp,
        m.tokens is None,
        m.embedding is None,
        m.images is None,
        m.tool_calls is None,
        m.source == reply.source,
        crate::tools::opt_view(m.pal_id) == Some(reply.pal_id@),
        crate::tools::opt_view(m.pal_name) == Some(reply.pal_name@),
{
    Message {
        id: reply.message_id.clone(),
        text: reply.text.clone(),
        reasoning: None,
        sender: MessageRole::Assistant,
        timestamp,
        tokens: None,
        embedding: None,
        images: None,
        tool_calls: None,
        source: reply.source,
        pal_id: Some(reply.pal_id.clone()),
        pal_name: Some(reply.pal_name.clone()),
    }
}

/// Whenever the director is asked, the conversation section of its prompt
/// holds one line `name: text` for each reply of the round, in the order
/// the replies came, joined by line breaks: no reply is left out and none
/// is added.
pub proof fn law_director_reads_every_reply(round: MultiPalRound, step: PalStep)
    requires
        round.director_step(step),
        step is Ask,
    ensures
        step matches PalStep::Ask { context, .. } && context@.len() == 1 && context@[0].text@
            == crate::director::director_head() + crate::director::pals_block(
            unlocked(round.characters@, views(round.targets@)),
        ) + crate::director::director_mid() + join(
            Seq::new(
                round.replies@.len(),
                |i: int| round.replies@[i].pal_name@ + ": "@ + round.replies@[i].text@,
            ),
            "\n"@,
        ) + crate::director::director_tail(),
{
    let lines = Seq::new(
        round.replies@.len(),
        |i: int| round.replies@[i].pal_name@ + ": "@ + round.replies@[i].text@,
    );
    assert(recent_lines(round.replies@) =~= lines);
}

} // verus!
