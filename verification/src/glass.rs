//! Glasses: bounded stacks of balls, and their mathematical model.

use vstd::prelude::*;
use crate::ball::Ball;

verus! {

/// Why a glass refused a push or a pop.
#[derive(PartialEq, Eq, Structural, Clone, Copy, Debug)]
pub enum GlassError {
    /// A ball was pushed onto a glass that holds as many balls as it can.
    ContainerFull,
    /// A ball was popped from a glass that holds none.
    ContainerEmpty,
}

impl GlassError {
    /// What is said to the player about the refusal.
    pub open spec fn text(self) -> Seq<char> {
        match self {
            GlassError::ContainerFull => "Glass is full"@,
            GlassError::ContainerEmpty => "Glass is empty"@,
        }
    }

    /// What is said to the player about the refusal.
    pub fn message(&self) -> (message: &'static str)
        ensures
            message@ == self.text(),
    {
        match self {
            GlassError::ContainerFull => "Glass is full",
            GlassError::ContainerEmpty => "Glass is empty",
        }
    }
}

/// The number of entries at the end of `s` that equal `ball`: the length of
/// the longest suffix of `s` made of `ball` alone.
pub open spec fn run_at_end(s: Seq<Ball>, ball: Ball) -> nat
    decreases s.len(),
{
    if s.len() > 0 && s.last() == ball {
        1 + run_at_end(s.drop_last(), ball)
    } else {
        0
    }
}

/// All entries of `s` have the same colour.
pub open spec fn is_uniform(s: Seq<Ball>) -> bool {
    forall|i: int, j: int| 0 <= i < j < s.len() ==> s[i] == s[j]
}

/// The model of a glass: how many balls it can hold, and the balls it holds
/// from the bottom (index 0) to the top (last index).
#[verifier::ext_equal]
pub struct Column {
    pub capacity: nat,
    pub balls: Seq<Ball>,
}

impl Column {
    /// The balls fit into the glass.
    pub open spec fn wf(self) -> bool {
        self.balls.len() <= self.capacity
    }

    /// The glass holds as many balls as it can.
    pub open spec fn is_full(self) -> bool {
        self.balls.len() == self.capacity
    }

    /// The glass holds no ball.
    pub open spec fn is_empty(self) -> bool {
        self.balls.len() == 0
    }

    /// The ball on top, if there is one.
    pub open spec fn top(self) -> Option<Ball> {
        if self.balls.len() == 0 {
            None
        } else {
            Some(self.balls.last())
        }
    }

    /// The number of balls that still fit.
    pub open spec fn available(self) -> int {
        self.capacity - self.balls.len()
    }

    /// A solved glass is filled to capacity with balls of one colour. A glass
    /// without balls is never solved.
    pub open spec fn is_solved(self) -> bool {
        &&& !self.is_empty()
        &&& self.is_full()
        &&& is_uniform(self.balls)
    }

    /// The length of the run of equally coloured balls at the top: counted
    /// from the top ball downwards to the first ball of another colour, or
    /// to the bottom.
    pub open spec fn top_run(self) -> nat {
        if self.balls.len() == 0 {
            0
        } else {
            run_at_end(self.balls, self.balls.last())
        }
    }

    /// The glass with `ball` put on top.
    pub open spec fn push(self, ball: Ball) -> Column {
        Column { capacity: self.capacity, balls: self.balls.push(ball) }
    }

    /// The glass without its top ball.
    pub open spec fn pop(self) -> Column {
        Column { capacity: self.capacity, balls: self.balls.drop_last() }
    }

    /// What an attempt to put `ball` on top answers, and the glass after it:
    /// a full glass refuses the ball and stays as it is.
    pub open spec fn try_push(self, ball: Ball) -> (Result<(), GlassError>, Column) {
        if self.is_full() {
            (Err(GlassError::ContainerFull), self)
        } else {
            (Ok(()), self.push(ball))
        }
    }

    /// What an attempt to take the top ball off answers, and the glass after
    /// it: an empty glass has nothing to give and stays as it is.
    pub open spec fn try_pop(self) -> (Result<Ball, GlassError>, Column) {
        if self.is_empty() {
            (Err(GlassError::ContainerEmpty), self)
        } else {
            (Ok(self.balls.last()), self.pop())
        }
    }

    /// The glass without its top `n` balls.
    pub open spec fn drop_top(self, n: nat) -> Column {
        Column { capacity: self.capacity, balls: self.balls.take(self.balls.len() - n) }
    }

    /// The glass with `n` balls of colour `ball` put on top.
    pub open spec fn push_run(self, ball: Ball, n: nat) -> Column {
        Column { capacity: self.capacity, balls: self.balls + Seq::new(n, |i: int| ball) }
    }
}

/// A glass: a stack of at most `size` balls.
pub struct Glass {
    size: u8,
    balls: Vec<Ball>,
}

impl View for Glass {
    type V = Column;

    closed spec fn view(&self) -> Column {
        Column { capacity: self.size as nat, balls: self.balls@ }
    }
}

impl Clone for Glass {
    fn clone(&self) -> (copy: Self)
        ensures
            copy@ == self@,
    {
        let mut balls: Vec<Ball> = Vec::new();
        let mut i: usize = 0;
        while i < self.balls.len()
            invariant
                i <= self.balls@.len(),
                balls@ == self.balls@.take(i as int),
            decreases self.balls@.len() - i,
        {
            balls.push(self.balls[i]);
            i += 1;
        }
        assert(self.balls@.take(i as int) == self.balls@);
        Glass { size: self.size, balls }
    }
}

impl Glass {
    /// A glass that can hold `size` balls and holds `balls`, bottom first.
    pub fn new(size: u8, balls: Vec<Ball>) -> (glass: Self)
        requires
            balls@.len() <= size,
        ensures
            glass@ == (Column { capacity: size as nat, balls: balls@ }),
            glass@.wf(),
    {
        Self { size, balls }
    }

    /// The number of balls that the glass can hold.
    pub fn size(&self) -> (size: u8)
        ensures
            size == self@.capacity,
    {
        self.size
    }

    /// The balls in the glass, bottom first.
    pub fn balls(&self) -> (balls: &Vec<Ball>)
        ensures
            balls@ == self@.balls,
    {
        &self.balls
    }

    /// Whether the glass holds as many balls as it can.
    pub fn is_full(&self) -> (full: bool)
        ensures
            full == self@.is_full(),
    {
        self.balls.len() == self.size as usize
    }

    /// Whether the glass holds no ball.
    pub fn is_empty(&self) -> (empty: bool)
        ensures
            empty == self@.is_empty(),
    {
        self.balls.len() == 0
    }

    /// The ball on top, or `None` in an empty glass.
    pub fn get_top(&self) -> (top: Option<&Ball>)
        ensures
            match top {
                Some(ball) => self@.top() == Some(*ball),
                None => self@.top() is None,
            },
    {
        let len = self.balls.len();
        if len == 0 {
            None
        } else {
            Some(&self.balls[len - 1])
        }
    }

    /// Puts `ball` on top, unless the glass is full: then nothing changes
    /// and the ball is refused.
    pub fn push(&mut self, ball: Ball) -> (result: Result<(), GlassError>)
        ensures
            (result, final(self)@) == old(self)@.try_push(ball),
            old(self)@.wf() ==> final(self)@.wf(),
    {
        if !self.is_full() {
            self.balls.push(ball);
            Ok(())
        } else {
            Err(GlassError::ContainerFull)
        }
    }

    /// Takes the top ball off, unless the glass is empty: then nothing
    /// changes.
    pub fn pop(&mut self) -> (result: Result<Ball, GlassError>)
        ensures
            (result, final(self)@) == old(self)@.try_pop(),
            old(self)@.wf() ==> final(self)@.wf(),
    {
        if let Some(ball) = self.balls.pop() {
            Ok(ball)
        } else {
            Err(GlassError::ContainerEmpty)
        }
    }

    /// The number of balls that still fit.
    pub fn get_available_space(&self) -> (space: u8)
        requires
            self@.wf(),
        ensures
            space == self@.available(),
    {
        self.size - self.balls.len() as u8
    }

    /// Whether the glass is solved: full, of one colour, and not empty.
    pub fn is_completed(&self) -> (solved: bool)
        ensures
            solved == self@.is_solved(),
    {
        let len = self.balls.len();
        if len == 0 || len != self.size as usize {
            return false;
        }
        let top = self.balls[len - 1];
        let mut i: usize = 0;
        while i < len
            invariant
                len == self.balls@.len(),
                len > 0,
                i <= len,
                top == self.balls@.last(),
                forall|k: int| 0 <= k < i ==> self.balls@[k] == top,
            decreases len - i,
        {
            if self.balls[i] != top {
                assert(self.balls@[i as int] != self.balls@[len - 1]);
                return false;
            }
            i += 1;
        }
        true
    }

    /// The length of the run of equally coloured balls at the top.
    pub fn top_run(&self) -> (run: usize)
        ensures
            run == self@.top_run(),
    {
        let len = self.balls.len();
        if len == 0 {
            return 0;
        }
        let top = self.balls[len - 1];
        let mut run: usize = 0;
        assert(self.balls@.take(len as int) == self.balls@);
        while run < len && self.balls[len - 1 - run] == top
            invariant
                len == self.balls@.len(),
                run <= len,
                run_at_end(self.balls@, top) == run + run_at_end(
                    self.balls@.take(len - run),
                    top,
                ),
            decreases len - run,
        {
            assert(self.balls@.take(len - run).drop_last() == self.balls@.take(len - run - 1));
            run += 1;
        }
        run
    }
}

/// The run at the end of a sequence lies within it, is made of the given
/// colour alone, and ends below at a ball of another colour or at the
/// bottom.
pub proof fn lemma_run_at_end(s: Seq<Ball>, ball: Ball)
    ensures
        run_at_end(s, ball) <= s.len(),
        forall|k: int| s.len() - run_at_end(s, ball) <= k < s.len() ==> s[k] == ball,
        run_at_end(s, ball) < s.len() ==> s[s.len() - run_at_end(s, ball) - 1] != ball,
    decreases s.len(),
{
    if s.len() > 0 && s.last() == ball {
        let rest = s.drop_last();
        lemma_run_at_end(rest, ball);
        assert forall|k: int| s.len() - run_at_end(s, ball) <= k < s.len() implies s[k]
            == ball by {
            if k < rest.len() {
                assert(rest[k] == s[k]);
            }
        }
        if run_at_end(s, ball) < s.len() {
            assert(rest[rest.len() - run_at_end(rest, ball) - 1] == s[s.len() - run_at_end(
                s,
                ball,
            ) - 1]);
        }
    }
}

/// A push onto a glass that is not full, followed at once by a pop, gives
/// the pushed ball back and leaves the glass exactly as it was before the
/// push, so that it is empty or full as before. A full glass refuses the
/// push and does not change.
pub proof fn lemma_push_then_pop(glass: Column, ball: Ball)
    ensures
        glass.is_full() ==> glass.try_push(ball) == (
            Err::<(), GlassError>(GlassError::ContainerFull),
            glass,
        ),
        !glass.is_full() ==> {
            let (pushed, after_push) = glass.try_push(ball);
            let (popped, after_pop) = after_push.try_pop();
            &&& pushed is Ok
            &&& popped == Ok::<Ball, GlassError>(ball)
            &&& after_pop == glass
            &&& after_pop.is_empty() == glass.is_empty()
            &&& after_pop.is_full() == glass.is_full()
        },
{
    assert(glass.balls.push(ball).drop_last() == glass.balls);
}

/// A glass is full and empty at once only if it can hold no ball at all.
pub proof fn lemma_full_and_empty(glass: Column)
    ensures
        glass.capacity > 0 ==> !(glass.is_full() && glass.is_empty()),
        glass.is_full() && glass.is_empty() <==> glass.capacity == 0 && glass.balls.len() == 0,
{
}

/// An empty glass is not solved, and neither is a glass that holds balls of
/// two colours. A glass that can hold at least one ball is solved exactly
/// when it is full and all its balls have the colour of the top ball.
pub proof fn lemma_solved(glass: Column)
    ensures
        glass.is_empty() ==> !glass.is_solved(),
        (exists|i: int, j: int|
            0 <= i < glass.balls.len() && 0 <= j < glass.balls.len() && glass.balls[i]
                != glass.balls[j]) ==> !glass.is_solved(),
        glass.capacity > 0 ==> (glass.is_solved() <==> glass.is_full() && forall|i: int|
            0 <= i < glass.balls.len() ==> glass.balls[i] == glass.balls.last()),
{
    if glass.is_solved() {
        assert forall|i: int, j: int|
            0 <= i < glass.balls.len() && 0 <= j < glass.balls.len() implies glass.balls[i]
            == glass.balls[j] by {
            if i < j {
            } else if j < i {
            }
        }
    }
}

} // verus!
