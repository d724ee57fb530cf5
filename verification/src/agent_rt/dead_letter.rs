//! Messages that could not be delivered.
use std::collections::VecDeque;
use vstd::prelude::*;
use crate::agent_rt::types::AgentPid;

verus! {

/// Why a message could not be delivered.
#[derive(Debug, Clone, Copy, PartialEq, Eq, Structural)]
pub enum DeadLetterReason {
    MailboxFull,
    ProcessNotFound,
    ProcessTerminated,
}

/// A message that could not be delivered. The time is in nanoseconds.
#[derive(Debug, Clone, Copy, PartialEq, Eq, Structural)]
pub struct DeadLetter {
    pub timestamp: u128,
    pub sender_pid: Option<AgentPid>,
    pub target_pid: AgentPid,
    pub reason: DeadLetterReason,
}

/// Keeps the latest letters, and counts all of them.
pub struct DeadLetterQueue {
    buffer: VecDeque<DeadLetter>,
    capacity: usize,
    total_count: u64,
}

/// What a queue of letters is.
#[verifier::ext_equal]
pub struct LettersV {
    pub letters: Seq<DeadLetter>,
    pub capacity: usize,
    pub total: u64,
}

impl View for DeadLetterQueue {
    type V = LettersV;

    closed spec fn view(&self) -> LettersV {
        LettersV { letters: self.buffer@, capacity: self.capacity, total: self.total_count }
    }
}

/// A queue with one more letter. Where it is full, the oldest letter leaves.
pub open spec fn pushed(q: LettersV, letter: DeadLetter) -> LettersV {
    LettersV {
        letters: if q.letters.len() >= q.capacity && q.letters.len() > 0 {
            q.letters.drop_first().push(letter)
        } else {
            q.letters.push(letter)
        },
        capacity: q.capacity,
        total: (q.total + 1) as u64,
    }
}

impl DeadLetterQueue {
    /// A queue without letters.
    pub fn new(capacity: usize) -> (r: Self)
        ensures
            r@ == (LettersV { letters: Seq::empty(), capacity, total: 0 }),
    {
        DeadLetterQueue { buffer: VecDeque::new(), capacity, total_count: 0 }
    }

    /// Adds a letter.
    pub fn push(&mut self, letter: DeadLetter)
        requires
            old(self)@.total < u64::MAX,
        ensures
            final(self)@ == pushed(old(self)@, letter),
    {
        let ghost before = self.buffer@;
        if self.buffer.len() >= self.capacity {
            let _ = self.buffer.pop_front();
            assert(before.len() > 0 ==> self.buffer@ =~= before.drop_first());
        }
        self.buffer.push_back(letter);
        self.total_count = self.total_count + 1;
    }

    /// The letters that are kept, the oldest first.
    pub fn recent(&self) -> (r: &VecDeque<DeadLetter>)
        ensures
            r@ == self@.letters,
    {
        &self.buffer
    }

    /// How many letters there have been.
    pub fn total_count(&self) -> (r: u64)
        ensures
            r == self@.total,
    {
        self.total_count
    }

    /// How many letters are kept.
    pub fn len(&self) -> (r: usize)
        ensures
            r == self@.letters.len(),
    {
        self.buffer.len()
    }

    /// Whether no letter is kept.
    pub fn is_empty(&self) -> (r: bool)
        ensures
            r == (self@.letters.len() == 0),
    {
        self.buffer.len() == 0
    }
}

/// No more letters are kept than the queue was made for, and the latest is always there.
pub proof fn law_letters_bounded(q: LettersV, letter: DeadLetter)
    requires
        q.letters.len() <= q.capacity,
        q.capacity > 0,
    ensures
        pushed(q, letter).letters.len() <= q.capacity,
        pushed(q, letter).letters.last() == letter,
{
}

/// A queue after letters one after the other.
pub open spec fn pushed_all(q: LettersV, letters: Seq<DeadLetter>) -> LettersV
    decreases letters.len(),
{
    if letters.len() == 0 {
        q
    } else {
        pushed(pushed_all(q, letters.drop_last()), letters.last())
    }
}

/// A queue keeps the latest letters, as many as it was made for, in the order in which they came,
/// and has counted all of them.
pub proof fn law_latest_letters_kept(capacity: usize, letters: Seq<DeadLetter>)
    requires
        capacity > 0,
        letters.len() < u64::MAX,
    ensures
        ({
            let q = pushed_all(
                LettersV { letters: Seq::empty(), capacity, total: 0 },
                letters,
            );
            &&& q.letters == letters.skip(
                if letters.len() > capacity {
                    letters.len() - capacity
                } else {
                    0
                },
            )
            &&& q.total == letters.len()
            &&& q.capacity == capacity
        }),
    decreases letters.len(),
{
    if letters.len() > 0 {
        let front = letters.drop_last();
        law_latest_letters_kept(capacity, front);
        let e = LettersV { letters: Seq::empty(), capacity, total: 0 };
        let q = pushed_all(e, letters);
        let n = if letters.len() > capacity {
            letters.len() - capacity
        } else {
            0
        };
        assert(q.letters =~= letters.skip(n));
    } else {
        assert(letters.skip(0) =~= Seq::<DeadLetter>::empty());
    }
}

} // verus!
