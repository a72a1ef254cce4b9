//! The byte that is the state of a `Once`.

use vstd::prelude::*;

verus! {

/// Set when initialization has completed.
pub const DONE_BIT: u8 = 1;

/// Set when a closure has panicked and no other one has been started since.
pub const POISON_BIT: u8 = 2;

/// Set while a thread is executing a closure.
pub const LOCKED_BIT: u8 = 4;

/// Set when threads may be parked on the `Once`.
pub const PARKED_BIT: u8 = 8;

/// Current state of a `Once`.
#[derive(Copy, Clone, Eq, PartialEq, Debug, Structural)]
pub enum OnceState {
    /// A closure has not been executed yet.
    New,
    /// A closure was executed but panicked.
    Poisoned,
    /// A thread is currently executing a closure.
    InProgress,
    /// A closure has completed successfully.
    Done,
}

impl OnceState {
    /// Returns `true` if this is the [`Poisoned`](OnceState::Poisoned) state.
    pub fn is_poisoned(self) -> (r: bool)
        ensures
            r == (self is Poisoned),
    {
        matches!(self, OnceState::Poisoned)
    }

    /// Alias for [`is_poisoned`](Self::is_poisoned).
    pub fn poisoned(self) -> (r: bool)
        ensures
            r == (self is Poisoned),
    {
        self.is_poisoned()
    }

    /// Returns `true` if this is the [`Done`](OnceState::Done) state.
    pub fn is_completed(self) -> (r: bool)
        ensures
            r == (self is Done),
    {
        matches!(self, OnceState::Done)
    }

    /// Alias for [`is_completed`](Self::is_completed).
    pub fn done(self) -> (r: bool)
        ensures
            r == (self is Done),
    {
        self.is_completed()
    }

    /// The state that a byte stands for.
    pub fn of_word(word: u8) -> (r: OnceState)
        ensures
            r == state_of(word),
    {
        if word & DONE_BIT != 0 {
            OnceState::Done
        } else if word & LOCKED_BIT != 0 {
            OnceState::InProgress
        } else if word & POISON_BIT != 0 {
            OnceState::Poisoned
        } else {
            OnceState::New
        }
    }

    /// The name of the state.
    pub open spec fn name(self) -> Seq<char> {
        match self {
            OnceState::New => "New"@,
            OnceState::Poisoned => "Poisoned"@,
            OnceState::InProgress => "InProgress"@,
            OnceState::Done => "Done"@,
        }
    }

    /// A `Once` in this state as it is shown to developers.
    pub fn debug_once(self) -> (r: String)
        ensures
            r@ == "Once { state: "@ + self.name() + " }"@,
            self is New ==> r@ == "Once { state: "@ + "New"@ + " }"@,
            self is Poisoned ==> r@ == "Once { state: "@ + "Poisoned"@ + " }"@,
            self is InProgress ==> r@ == "Once { state: "@ + "InProgress"@ + " }"@,
            self is Done ==> r@ == "Once { state: "@ + "Done"@ + " }"@,
    {
        let mut r = String::from_str("Once { state: ");
        r.append(
            match self {
                OnceState::New => "New",
                OnceState::Poisoned => "Poisoned",
                OnceState::InProgress => "InProgress",
                OnceState::Done => "Done",
            },
        );
        r.append(" }");
        r
    }
}

/// Whether a byte says that initialization has completed.
pub open spec fn is_done(word: u8) -> bool {
    word & DONE_BIT != 0
}

/// Whether a byte says that a closure has panicked.
pub open spec fn is_poisoned(word: u8) -> bool {
    word & POISON_BIT != 0
}

/// Whether a byte says that a closure is being executed.
pub open spec fn is_locked(word: u8) -> bool {
    word & LOCKED_BIT != 0
}

/// Whether a byte says that threads may be parked.
pub open spec fn is_parked(word: u8) -> bool {
    word & PARKED_BIT != 0
}

/// The state that a byte stands for.
pub open spec fn state_of(word: u8) -> OnceState {
    if is_done(word) {
        OnceState::Done
    } else if is_locked(word) {
        OnceState::InProgress
    } else if is_poisoned(word) {
        OnceState::Poisoned
    } else {
        OnceState::New
    }
}

/// The byte once a closure has been started: the lock is held, and an earlier panic is forgotten
/// since the closure is going to be tried again.
pub open spec fn locked_word(word: u8) -> u8 {
    (word | LOCKED_BIT) & !POISON_BIT
}

/// The byte once a thread has announced that it is going to park.
pub open spec fn parked_word(word: u8) -> u8 {
    word | PARKED_BIT
}

/// Starting a closure changes what it says and nothing else.
pub proof fn lemma_locked_word(word: u8)
    ensures
        is_locked(locked_word(word)),
        !is_poisoned(locked_word(word)),
        is_done(locked_word(word)) == is_done(word),
        is_parked(locked_word(word)) == is_parked(word),
{
    let w = (word | 4) & !2u8;
    assert(w & 4 != 0 && w & 2 == 0 && (w & 1 != 0 <==> word & 1 != 0) && (w & 8 != 0 <==> word & 8
        != 0)) by (bit_vector)
        requires
            w == (word | 4) & !2u8,
    ;
}

/// Announcing a parked thread changes what it says and nothing else.
pub proof fn lemma_parked_word(word: u8)
    ensures
        is_parked(parked_word(word)),
        is_locked(parked_word(word)) == is_locked(word),
        is_poisoned(parked_word(word)) == is_poisoned(word),
        is_done(parked_word(word)) == is_done(word),
{
    let w = word | 8;
    assert(w & 8 != 0 && (w & 4 != 0 <==> word & 4 != 0) && (w & 2 != 0 <==> word & 2 != 0) && (w
        & 1 != 0 <==> word & 1 != 0)) by (bit_vector)
        requires
            w == word | 8,
    ;
}

/// What the bytes say that are written as a whole.
pub proof fn lemma_words()
    ensures
        is_done(DONE_BIT) && !is_poisoned(DONE_BIT) && !is_locked(DONE_BIT) && !is_parked(DONE_BIT),
        !is_done(POISON_BIT) && is_poisoned(POISON_BIT) && !is_locked(POISON_BIT) && !is_parked(
            POISON_BIT,
        ),
        !is_done(0) && !is_poisoned(0) && !is_locked(0) && !is_parked(0),
        ({
            let w = LOCKED_BIT | PARKED_BIT;
            !is_done(w) && !is_poisoned(w) && is_locked(w) && is_parked(w)
        }),
{
    assert(1u8 & 1 != 0 && 1u8 & 2 == 0 && 1u8 & 4 == 0 && 1u8 & 8 == 0) by (bit_vector);
    assert(2u8 & 1 == 0 && 2u8 & 2 != 0 && 2u8 & 4 == 0 && 2u8 & 8 == 0) by (bit_vector);
    assert(0u8 & 1 == 0 && 0u8 & 2 == 0 && 0u8 & 4 == 0 && 0u8 & 8 == 0) by (bit_vector);
    assert((4u8 | 8) & 1 == 0 && (4u8 | 8) & 2 == 0 && (4u8 | 8) & 4 != 0 && (4u8 | 8) & 8 != 0)
        by (bit_vector);
}

} // verus!
