//! Setting up a new puzzle: the deck, its shuffle, and the deal into glasses.

use rand::rngs::ThreadRng;
use rand::seq::SliceRandom;
use rand::thread_rng;
use vstd::prelude::*;
use vstd::seq_lib::lemma_multiset_commutative;
use crate::ball::{lemma_palette_distinct, palette, Ball, PALETTE_SIZE};
use crate::game::{columns_of, Board, Game};
use crate::glass::{Column, Glass};

verus! {

/// No glass of a new puzzle is smaller than this.
pub const MIN_GLASS_SIZE: u8 = 4;

/// The number of empty glasses that a new puzzle gets beside the filled ones.
pub const SPARE_GLASSES: u8 = 2;

/// The capacity of the glasses of a new puzzle for which `glass_size` was
/// asked.
pub open spec fn glass_capacity(glass_size: u8) -> nat {
    if glass_size < MIN_GLASS_SIZE {
        MIN_GLASS_SIZE as nat
    } else {
        glass_size as nat
    }
}

/// The number of colours in a new puzzle of `glass_count` glasses: one for
/// each glass but the spare ones, as far as the palette goes, and none
/// where there are no more glasses than spare ones.
pub open spec fn colors_used(glass_count: u8) -> nat {
    if glass_count <= SPARE_GLASSES {
        0
    } else if glass_count - SPARE_GLASSES > PALETTE_SIZE {
        PALETTE_SIZE as nat
    } else {
        (glass_count - SPARE_GLASSES) as nat
    }
}

/// The deck before it is shuffled: `capacity` balls of the first colour of
/// the palette, then `capacity` of the second, up to the colour `colors`.
pub open spec fn deck(colors: nat, capacity: nat) -> Seq<Ball>
    decreases colors,
{
    if colors == 0 {
        Seq::empty()
    } else {
        deck((colors - 1) as nat, capacity) + Seq::new(
            capacity,
            |i: int| palette()[colors - 1],
        )
    }
}

/// The glasses filled from `balls`: each takes the next `capacity` balls,
/// the last one what is left.
pub open spec fn filled(balls: Seq<Ball>, capacity: nat) -> Seq<Column>
    decreases balls.len(),
{
    if balls.len() == 0 || capacity == 0 {
        Seq::empty()
    } else if balls.len() <= capacity {
        seq![Column { capacity, balls }]
    } else {
        seq![Column { capacity, balls: balls.take(capacity as int) }] + filled(
            balls.skip(capacity as int),
            capacity,
        )
    }
}

/// A glass of the given capacity without balls.
pub open spec fn empty_column(capacity: nat) -> Column {
    Column { capacity, balls: Seq::empty() }
}

/// The board dealt from `balls`: the filled glasses, then the spare ones,
/// and nothing selected.
pub open spec fn dealt(balls: Seq<Ball>, capacity: nat) -> Board {
    Board {
        columns: filled(balls, capacity).push(empty_column(capacity)).push(
            empty_column(capacity),
        ),
        selection: None,
    }
}

/// All balls of a row of glasses, glass by glass from the left, each from
/// bottom to top.
pub open spec fn balls_of(columns: Seq<Column>) -> Seq<Ball>
    decreases columns.len(),
{
    if columns.len() == 0 {
        Seq::empty()
    } else {
        balls_of(columns.drop_last()) + columns.last().balls
    }
}

/// `rand::rngs::ThreadRng`, the handle to a thread's random number
/// generator. The proofs see nothing inside it.
#[verifier::external_type_specification]
#[verifier::external_body]
pub struct ExThreadRng(ThreadRng);

/// `rand::thread_rng` hands out the handle to the calling thread's
/// generator, which the system seeds. Nothing is claimed of the handle. The
/// call takes no argument; it fails only where the system has no randomness
/// to give.
pub assume_specification[ rand::thread_rng ]() -> (rng: ThreadRng)
;

/// `rand::seq::SliceRandom::shuffle` on the slice of `balls`. It walks the
/// slice from the back and swaps each place with a place at or before it,
/// so the balls afterwards are the balls before, each as often as before,
/// in some order. Nothing is trusted about which order that is, nor about
/// the generator afterwards.
#[verifier::external_body]
fn shuffle(balls: &mut Vec<Ball>, rng: &mut ThreadRng)
    ensures
        final(balls)@.to_multiset() == old(balls)@.to_multiset(),
{
    balls.shuffle(rng);
}

/// The capacity that is used where `glass_size` was asked for.
fn clamp_size(glass_size: u8) -> (capacity: u8)
    ensures
        capacity == glass_capacity(glass_size),
{
    if glass_size < MIN_GLASS_SIZE {
        MIN_GLASS_SIZE
    } else {
        glass_size
    }
}

/// The unshuffled deck of a new puzzle.
pub fn sorted_deck(glass_size: u8, glass_count: u8) -> (balls: Vec<Ball>)
    ensures
        balls@ == deck(colors_used(glass_count), glass_capacity(glass_size)),
{
    let capacity = clamp_size(glass_size);
    let wanted: u8 = if glass_count <= SPARE_GLASSES {
        0
    } else {
        glass_count - SPARE_GLASSES
    };
    let colors: usize = if wanted > PALETTE_SIZE {
        PALETTE_SIZE as usize
    } else {
        wanted as usize
    };
    let all = Ball::get_colors();
    let mut balls: Vec<Ball> = Vec::new();
    let mut color: usize = 0;
    while color < colors
        invariant
            color <= colors <= PALETTE_SIZE,
            all@ == palette(),
            balls@ == deck(color as nat, capacity as nat),
        decreases colors - color,
    {
        let mut copies: u8 = 0;
        while copies < capacity
            invariant
                copies <= capacity,
                color < colors <= PALETTE_SIZE,
                all@ == palette(),
                balls@ == deck(color as nat, capacity as nat) + Seq::new(
                    copies as nat,
                    |i: int| palette()[color as int],
                ),
            decreases capacity - copies,
        {
            balls.push(all[color]);
            copies += 1;
        }
        color += 1;
    }
    balls
}

impl Game {
    /// Deals `balls` into glasses: each glass takes the next balls up to its
    /// capacity, two empty glasses follow, and nothing is selected. The
    /// capacity is `glass_size`, or 4 if that is less.
    pub fn deal(glass_size: u8, balls: Vec<Ball>) -> (game: Game)
        ensures
            game@ == dealt(balls@, glass_capacity(glass_size)),
            game@.wf(),
    {
        let capacity = clamp_size(glass_size);
        let len = balls.len();
        let mut glasses: Vec<Glass> = Vec::new();
        let mut start: usize = 0;
        assert(balls@.skip(0) == balls@);
        while start < len
            invariant
                capacity >= MIN_GLASS_SIZE,
                start <= len == balls@.len(),
                forall|k: int| 0 <= k < glasses@.len() ==> (#[trigger] glasses@[k])@.wf(),
                filled(balls@, capacity as nat) == columns_of(glasses@) + filled(
                    balls@.skip(start as int),
                    capacity as nat,
                ),
            decreases len - start,
        {
            let rest = len - start;
            let count = if rest < capacity as usize {
                rest
            } else {
                capacity as usize
            };
            let mut chunk: Vec<Ball> = Vec::new();
            let mut i: usize = 0;
            while i < count
                invariant
                    i <= count,
                    start + count <= len == balls@.len(),
                    chunk@ == balls@.subrange(start as int, start + i),
                decreases count - i,
            {
                chunk.push(balls[start + i]);
                i += 1;
            }
            let ghost before = glasses@;
            glasses.push(Glass::new(capacity, chunk));
            proof {
                let tail = balls@.skip(start as int);
                assert(chunk@ == tail.take(count as int));
                assert(tail.skip(count as int) == balls@.skip(start + count));
                if rest <= capacity {
                    assert(tail.take(count as int) == tail);
                }
                assert(columns_of(glasses@) == columns_of(before) + seq![
                    Column { capacity: capacity as nat, balls: chunk@ },
                ]);
            }
            start = start + count;
        }
        glasses.push(Glass::new(capacity, Vec::new()));
        glasses.push(Glass::new(capacity, Vec::new()));
        assert(columns_of(glasses@) == dealt(balls@, capacity as nat).columns);
        Game::new(glasses)
    }

    /// A new puzzle with its balls in random order.
    ///
    /// The glasses hold `glass_size` balls, or 4 if that is less. There is
    /// one colour for each glass but two, as far as the palette goes, and
    /// none if `glass_count` is 2 or less. The deck holds as many balls of
    /// each colour as a glass can hold; it is shuffled and dealt, so that
    /// each colour fills one glass's worth of places, and two empty glasses
    /// follow the filled ones. Nothing is selected.
    pub fn create(glass_size: u8, glass_count: u8) -> (game: Game)
        ensures
            exists|shuffled: Seq<Ball>|
                #![trigger dealt(shuffled, glass_capacity(glass_size))]
                shuffled.to_multiset() == deck(
                    colors_used(glass_count),
                    glass_capacity(glass_size),
                ).to_multiset() && game@ == dealt(shuffled, glass_capacity(glass_size)),
            game@.wf(),
            game@.selection is None,
            game@.columns.len() == colors_used(glass_count) + SPARE_GLASSES,
            forall|k: int|
                0 <= k < game@.columns.len() ==> (#[trigger] game@.columns[k]).capacity
                    == glass_capacity(glass_size),
            forall|k: int|
                0 <= k < colors_used(glass_count) ==> (#[trigger] game@.columns[k]).is_full(),
            forall|k: int|
                colors_used(glass_count) <= k < game@.columns.len() ==> (
                #[trigger] game@.columns[k]).is_empty(),
            balls_of(game@.columns).to_multiset() == deck(
                colors_used(glass_count),
                glass_capacity(glass_size),
            ).to_multiset(),
            glass_count <= SPARE_GLASSES ==> game@ == (Board {
                columns: seq![
                    empty_column(glass_capacity(glass_size)),
                    empty_column(glass_capacity(glass_size)),
                ],
                selection: None,
            }),
    {
        let mut balls = sorted_deck(glass_size, glass_count);
        let mut rng = thread_rng();
        shuffle(&mut balls, &mut rng);
        let game = Game::deal(glass_size, balls);
        proof {
            let colors = colors_used(glass_count);
            let capacity = glass_capacity(glass_size);
            lemma_deck_len(colors, capacity);
            balls@.to_multiset_ensures();
            deck(colors, capacity).to_multiset_ensures();
            lemma_dealt(balls@, capacity);
            lemma_dealt_whole_glasses(balls@, colors, capacity);
            if glass_count <= SPARE_GLASSES {
                assert(game@.columns == seq![empty_column(capacity), empty_column(capacity)]);
            }
        }
        game
    }
}

/// The deck holds `capacity` balls for each colour.
pub proof fn lemma_deck_len(colors: nat, capacity: nat)
    ensures
        deck(colors, capacity).len() == colors * capacity,
    decreases colors,
{
    if colors == 0 {
        assert(colors * capacity == 0) by (nonlinear_arith)
            requires
                colors == 0,
        ;
    } else {
        let fewer = (colors - 1) as nat;
        lemma_deck_len(fewer, capacity);
        assert(fewer * capacity + capacity == colors * capacity) by (nonlinear_arith)
            requires
                fewer + 1 == colors,
        ;
    }
}

/// Among `n` balls of one colour there are `n` of that colour and none of
/// any other.
proof fn lemma_run_count(ball: Ball, n: nat, other: Ball)
    ensures
        Seq::new(n, |i: int| ball).to_multiset().count(other) == if other == ball {
            n
        } else {
            0
        },
    decreases n,
{
    let run = Seq::new(n, |i: int| ball);
    if n == 0 {
        run.to_multiset_ensures();
        assert(!run.contains(other));
    } else {
        let shorter = Seq::new((n - 1) as nat, |i: int| ball);
        lemma_run_count(ball, (n - 1) as nat, other);
        shorter.to_multiset_ensures();
        assert(run == shorter.push(ball));
    }
}

/// The deck holds `capacity` balls of each of its colours and none of any
/// other colour of the palette.
pub proof fn lemma_deck_count(colors: nat, capacity: nat, color: int)
    requires
        colors <= PALETTE_SIZE,
        0 <= color < PALETTE_SIZE,
    ensures
        deck(colors, capacity).to_multiset().count(palette()[color]) == if color < colors {
            capacity
        } else {
            0
        },
    decreases colors,
{
    let ball = palette()[color];
    if colors == 0 {
        deck(colors, capacity).to_multiset_ensures();
        assert(!deck(colors, capacity).contains(ball));
    } else {
        let fewer = (colors - 1) as nat;
        let run = Seq::new(capacity, |i: int| palette()[colors - 1]);
        lemma_deck_count(fewer, capacity, color);
        lemma_run_count(palette()[colors - 1], capacity, ball);
        lemma_multiset_commutative(deck(fewer, capacity), run);
        lemma_palette_distinct();
    }
}

/// The balls of a row of glasses with one more glass in front.
proof fn lemma_balls_of_prepend(first: Column, rest: Seq<Column>)
    ensures
        balls_of(seq![first] + rest) == first.balls + balls_of(rest),
    decreases rest.len(),
{
    let row = seq![first] + rest;
    assert(balls_of(Seq::<Column>::empty()) == Seq::<Ball>::empty());
    if rest.len() == 0 {
        assert(row.drop_last() == Seq::<Column>::empty());
        assert(row.last() == first);
    } else {
        assert(row.drop_last() == seq![first] + rest.drop_last());
        assert(row.last() == rest.last());
        lemma_balls_of_prepend(first, rest.drop_last());
    }
}

/// Read glass by glass, the filled glasses hold the balls as they were
/// handed in. Each has the capacity asked for and holds no more than that.
pub proof fn lemma_filled(balls: Seq<Ball>, capacity: nat)
    requires
        capacity > 0,
    ensures
        balls_of(filled(balls, capacity)) == balls,
        forall|k: int|
            0 <= k < filled(balls, capacity).len() ==> {
                &&& (#[trigger] filled(balls, capacity)[k]).capacity == capacity
                &&& filled(balls, capacity)[k].wf()
            },
    decreases balls.len(),
{
    let row = filled(balls, capacity);
    if balls.len() == 0 {
    } else if balls.len() <= capacity {
        let only = Column { capacity, balls };
        lemma_balls_of_prepend(only, Seq::empty());
        assert(seq![only] + Seq::<Column>::empty() == row);
        assert(balls_of(Seq::<Column>::empty()) == Seq::<Ball>::empty());
    } else {
        let first = Column { capacity, balls: balls.take(capacity as int) };
        let rest = balls.skip(capacity as int);
        lemma_filled(rest, capacity);
        lemma_balls_of_prepend(first, filled(rest, capacity));
        assert(balls.take(capacity as int) + rest == balls);
        assert forall|k: int| 0 <= k < row.len() implies (#[trigger] row[k]).capacity
            == capacity && row[k].wf() by {
            if k > 0 {
                assert(row[k] == filled(rest, capacity)[k - 1]);
            }
        }
    }
}

/// A deal keeps every ball and their order, fills no glass beyond its
/// capacity, and gives every glass the capacity asked for.
pub proof fn lemma_dealt(balls: Seq<Ball>, capacity: nat)
    requires
        capacity > 0,
    ensures
        balls_of(dealt(balls, capacity).columns) == balls,
        dealt(balls, capacity).wf(),
        forall|k: int|
            0 <= k < dealt(balls, capacity).columns.len() ==> (#[trigger] dealt(
                balls,
                capacity,
            ).columns[k]).capacity == capacity,
{
    let row = filled(balls, capacity);
    let spare = empty_column(capacity);
    lemma_filled(balls, capacity);
    assert(row.push(spare).drop_last() == row);
    assert(row.push(spare).push(spare).drop_last() == row.push(spare));
    assert(balls_of(row.push(spare)) == balls_of(row));
    assert forall|k: int| 0 <= k < row.len() + 2 implies (#[trigger] dealt(
        balls,
        capacity,
    ).columns[k]).capacity == capacity && dealt(balls, capacity).columns[k].wf() by {
        if k < row.len() {
            assert(dealt(balls, capacity).columns[k] == row[k]);
        }
    }
}

/// Balls that fill a whole number of glasses are dealt into exactly that
/// many full glasses, followed by the two empty ones.
pub proof fn lemma_dealt_whole_glasses(balls: Seq<Ball>, glasses: nat, capacity: nat)
    requires
        capacity > 0,
        balls.len() == glasses * capacity,
    ensures
        dealt(balls, capacity).columns.len() == glasses + SPARE_GLASSES,
        forall|k: int|
            0 <= k < glasses ==> (#[trigger] dealt(balls, capacity).columns[k]).is_full(),
        forall|k: int|
            glasses <= k < glasses + SPARE_GLASSES ==> (#[trigger] dealt(
                balls,
                capacity,
            ).columns[k]).is_empty(),
{
    let row = filled(balls, capacity);
    lemma_filled_whole_glasses(balls, glasses, capacity);
    assert forall|k: int| 0 <= k < glasses implies (#[trigger] dealt(
        balls,
        capacity,
    ).columns[k]).is_full() by {
        assert(dealt(balls, capacity).columns[k] == row[k]);
    }
}

/// Balls that fill a whole number of glasses fill exactly that many, each
/// to its capacity.
proof fn lemma_filled_whole_glasses(balls: Seq<Ball>, glasses: nat, capacity: nat)
    requires
        capacity > 0,
        balls.len() == glasses * capacity,
    ensures
        filled(balls, capacity).len() == glasses,
        forall|k: int| 0 <= k < glasses ==> (#[trigger] filled(balls, capacity)[k]).is_full(),
    decreases glasses,
{
    let row = filled(balls, capacity);
    if glasses == 0 {
        assert(balls.len() == 0) by (nonlinear_arith)
            requires
                balls.len() == glasses * capacity,
                glasses == 0,
        ;
    } else {
        let fewer = (glasses - 1) as nat;
        assert(balls.len() == fewer * capacity + capacity && (fewer > 0 ==> fewer * capacity
            > 0) && (fewer == 0 ==> fewer * capacity == 0)) by (nonlinear_arith)
            requires
                balls.len() == glasses * capacity,
                fewer + 1 == glasses,
                capacity > 0,
        ;
        if fewer > 0 {
            let rest = balls.skip(capacity as int);
            lemma_filled_whole_glasses(rest, fewer, capacity);
            assert forall|k: int| 0 <= k < glasses implies (#[trigger] row[k]).is_full() by {
                if k > 0 {
                    assert(row[k] == filled(rest, capacity)[k - 1]);
                }
            }
        }
    }
}

} // verus!
