//! Conversation memory: an append-only log of user and assistant turns.
//!
//! The log has no size bound. A clone is a point-in-time snapshot: later
//! appends to either copy do not show in the other.

use vstd::prelude::*;
use crate::text::{append_chars, chars_of, string_of};

verus! {

/// Who spoke a turn.
#[derive(Clone, Copy, Debug, PartialEq, Eq, Structural)]
pub enum Role {
    User,
    Assistant,
}

/// One turn of a conversation.
#[derive(Debug)]
pub struct Turn {
    pub role: Role,
    pub text: String,
}

impl View for Turn {
    type V = (Role, Seq<char>);

    open spec fn view(&self) -> (Role, Seq<char>) {
        (self.role, self.text@)
    }
}

impl Clone for Turn {
    fn clone(&self) -> (out: Self)
        ensures
            out == *self,
    {
        Turn { role: self.role, text: self.text.clone() }
    }
}

/// An ordered log of turns, oldest first.
#[derive(Debug)]
pub struct ConversationBufferMemory {
    turns: Vec<Turn>,
}

/// The views of a sequence of turns.
pub open spec fn turn_views(turns: Seq<Turn>) -> Seq<(Role, Seq<char>)> {
    turns.map_values(|t: Turn| t@)
}

/// The label that starts a transcript line of the given role.
pub open spec fn role_label(role: Role) -> Seq<char> {
    match role {
        Role::User => "user: "@,
        Role::Assistant => "assistant: "@,
    }
}

/// The transcript line of one turn: label, text, line feed.
pub open spec fn transcript_line(turn: (Role, Seq<char>)) -> Seq<char> {
    role_label(turn.0) + turn.1 + seq!['\n']
}

/// The transcript of a log: the lines of its turns, oldest first.
pub open spec fn transcript_of(turns: Seq<(Role, Seq<char>)>) -> Seq<char>
    decreases turns.len(),
{
    if turns.len() == 0 {
        Seq::empty()
    } else {
        transcript_of(turns.drop_last()) + transcript_line(turns.last())
    }
}

/// Appending a turn appends its line to the transcript.
pub proof fn lemma_transcript_push(turns: Seq<(Role, Seq<char>)>, turn: (Role, Seq<char>))
    ensures
        transcript_of(turns.push(turn)) == transcript_of(turns) + transcript_line(turn),
{
    assert(turns.push(turn).drop_last() =~= turns);
}

impl View for ConversationBufferMemory {
    type V = Seq<(Role, Seq<char>)>;

    closed spec fn view(&self) -> Seq<(Role, Seq<char>)> {
        turn_views(self.turns@)
    }
}

impl Clone for ConversationBufferMemory {
    /// A snapshot of the log as it is now.
    fn clone(&self) -> (out: Self)
        ensures
            out@ == self@,
    {
        let mut turns: Vec<Turn> = Vec::new();
        let mut i: usize = 0;
        while i < self.turns.len()
            invariant
                i <= self.turns.len(),
                turns@ == self.turns@.take(i as int),
            decreases self.turns.len() - i,
        {
            turns.push(self.turns[i].clone());
            assert(turns@ =~= self.turns@.take(i + 1));
            i += 1;
        }
        assert(turns@ =~= self.turns@);
        ConversationBufferMemory { turns }
    }
}

impl ConversationBufferMemory {
    /// An empty log.
    pub fn new() -> (out: Self)
        ensures
            out@ == Seq::<(Role, Seq<char>)>::empty(),
    {
        let out = ConversationBufferMemory { turns: Vec::new() };
        assert(out@ =~= Seq::<(Role, Seq<char>)>::empty());
        out
    }

    /// The number of turns in the log.
    pub fn len(&self) -> (out: usize)
        ensures
            out == self@.len(),
    {
        self.turns.len()
    }

    /// The turn at position `index`, oldest first.
    pub fn turn(&self, index: usize) -> (out: &Turn)
        requires
            index < self@.len(),
        ensures
            out@ == self@[index as int],
    {
        &self.turns[index]
    }

    /// Appends one turn at the end of the log.
    pub fn append(&mut self, role: Role, text: String)
        ensures
            final(self)@ == old(self)@.push((role, text@)),
    {
        self.turns.push(Turn { role, text });
        assert(self@ =~= old(self)@.push((role, text@)));
    }

    /// The log as one text block, one line per turn, oldest first.
    pub fn transcript(&self) -> (out: String)
        ensures
            out@ == transcript_of(self@),
    {
        let user = chars_of("user: ");
        let assistant = chars_of("assistant: ");
        let mut out: Vec<char> = Vec::new();
        let mut i: usize = 0;
        while i < self.turns.len()
            invariant
                i <= self.turns.len(),
                user@ == "user: "@,
                assistant@ == "assistant: "@,
                out@ == transcript_of(self@.take(i as int)),
            decreases self.turns.len() - i,
        {
            let turn = &self.turns[i];
            let ghost before = out@;
            match turn.role {
                Role::User => append_chars(&mut out, user.as_slice()),
                Role::Assistant => append_chars(&mut out, assistant.as_slice()),
            }
            let text = chars_of(turn.text.as_str());
            append_chars(&mut out, text.as_slice());
            out.push('\n');
            proof {
                assert(self@.take(i + 1) =~= self@.take(i as int).push(turn@));
                lemma_transcript_push(self@.take(i as int), turn@);
                assert(out@ =~= before + transcript_line(turn@));
            }
            i += 1;
        }
        assert(self@.take(i as int) =~= self@);
        string_of(out.as_slice())
    }
}

} // verus!
