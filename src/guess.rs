//! The number-guessing game: a secret number from `SECRET_MIN..=SECRET_MAX`
//! is drawn at random, and each guess is answered with too small, too big,
//! or a win that ends the game.
use vstd::prelude::*;

verus! {

/// The smallest secret number.
pub const SECRET_MIN: u32 = 1;

/// The largest secret number.
pub const SECRET_MAX: u32 = 100;

/// The answer to one guess.
#[derive(Clone, Copy, Debug, PartialEq, Eq, Structural)]
pub enum Verdict {
    /// The guess is below the secret.
    TooSmall,
    /// The guess is above the secret.
    TooBig,
    /// The guess is the secret.
    Win,
}

/// The answer that `guess` earns against `secret`.
pub open spec fn spec_judge(guess: u32, secret: u32) -> Verdict {
    if guess < secret {
        Verdict::TooSmall
    } else if guess > secret {
        Verdict::TooBig
    } else {
        Verdict::Win
    }
}

/// The word printed for a verdict.
pub open spec fn spec_message(v: Verdict) -> Seq<char> {
    match v {
        Verdict::TooSmall => "small"@,
        Verdict::TooBig => "big"@,
        Verdict::Win => "win"@,
    }
}

/// Compares `guess` with `secret`.
pub fn judge(guess: u32, secret: u32) -> (r: Verdict)
    ensures
        r == spec_judge(guess, secret),
{
    if guess < secret {
        Verdict::TooSmall
    } else if guess > secret {
        Verdict::TooBig
    } else {
        Verdict::Win
    }
}

impl Verdict {
    /// The word printed for this verdict.
    pub fn message(&self) -> (r: &'static str)
        ensures
            r@ == spec_message(*self),
    {
        match self {
            Verdict::TooSmall => "small",
            Verdict::TooBig => "big",
            Verdict::Win => "win",
        }
    }
}

/// Relies on `rand::rng` and `rand::Rng::random_range`: a number drawn from
/// the thread's generator, inside the closed range `lo..=hi`.
#[verifier::external_body]
fn draw_between(lo: u32, hi: u32) -> (r: u32)
    requires
        lo <= hi,
    ensures
        lo <= r <= hi,
{
    rand::Rng::random_range(&mut rand::rng(), lo..=hi)
}

/// One game: its secret and whether it has been won.
pub struct GuessGame {
    secret: u32,
    won: bool,
}

impl GuessGame {
    /// The secret number.
    pub closed spec fn spec_secret(&self) -> u32 {
        self.secret
    }

    /// Whether a guess has hit the secret.
    pub closed spec fn spec_won(&self) -> bool {
        self.won
    }

    /// The secret lies in the allowed range.
    pub open spec fn wf(&self) -> bool {
        SECRET_MIN <= self.spec_secret() <= SECRET_MAX
    }

    /// A game with a secret drawn at random from the allowed range.
    pub fn new() -> (r: Self)
        ensures
            r.wf(),
            !r.spec_won(),
    {
        let secret = draw_between(SECRET_MIN, SECRET_MAX);
        GuessGame { secret, won: false }
    }

    /// A game with the given secret.
    pub fn with_secret(secret: u32) -> (r: Self)
        requires
            SECRET_MIN <= secret <= SECRET_MAX,
        ensures
            r.wf(),
            r.spec_secret() == secret,
            !r.spec_won(),
    {
        GuessGame { secret, won: false }
    }

    /// Answers `guess`; a win ends the game.
    pub fn play(&mut self, guess: u32) -> (r: Verdict)
        ensures
            r == spec_judge(guess, old(self).spec_secret()),
            final(self).spec_secret() == old(self).spec_secret(),
            final(self).spec_won() == (old(self).spec_won() || r == Verdict::Win),
    {
        let r = judge(guess, self.secret);
        if r == Verdict::Win {
            self.won = true;
        }
        r
    }

    /// The secret number.
    pub fn secret(&self) -> (r: u32)
        ensures
            r == self.spec_secret(),
    {
        self.secret
    }

    /// Whether the game has been won.
    pub fn is_won(&self) -> (r: bool)
        ensures
            r == self.spec_won(),
    {
        self.won
    }
}

} // verus!
