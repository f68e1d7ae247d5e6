use ball_sort::deal::sorted_deck;
use ball_sort::{Ball, Game};

#[test]
fn colors_come_in_palette_order() {
    assert_eq!(
        [
            Ball::RED,
            Ball::GREEN,
            Ball::BLUE,
            Ball::YELLOW,
            Ball::MAGENTA,
            Ball::CYAN,
            Ball::PINK,
            Ball::ORANGE,
            Ball::SHITTYCOLORIDK,
        ],
        Ball::get_colors()
    );
}

#[test]
fn sorted_deck_holds_a_glass_of_each_colour() {
    assert_eq!(
        vec![
            Ball::RED,
            Ball::RED,
            Ball::RED,
            Ball::RED,
            Ball::GREEN,
            Ball::GREEN,
            Ball::GREEN,
            Ball::GREEN,
        ],
        sorted_deck(4, 4)
    );
    assert_eq!(vec![Ball::RED; 5], sorted_deck(5, 3));
}

#[test]
fn sorted_deck_raises_small_sizes_to_four() {
    assert_eq!(vec![Ball::RED; 4], sorted_deck(0, 3));
    assert_eq!(vec![Ball::RED; 4], sorted_deck(3, 3));
    assert_eq!(vec![Ball::RED; 4], sorted_deck(4, 3));
}

#[test]
fn sorted_deck_is_empty_for_two_glasses_or_fewer() {
    assert_eq!(Vec::<Ball>::new(), sorted_deck(4, 0));
    assert_eq!(Vec::<Ball>::new(), sorted_deck(4, 1));
    assert_eq!(Vec::<Ball>::new(), sorted_deck(4, 2));
}

#[test]
fn sorted_deck_stops_at_the_palette() {
    let palette = Ball::get_colors();
    for count in [11u8, 12, 100, 255] {
        let deck = sorted_deck(6, count);
        assert_eq!(9 * 6, deck.len());
        for (i, ball) in deck.iter().enumerate() {
            assert_eq!(palette[i / 6], *ball);
        }
    }
    assert_eq!(8 * 6, sorted_deck(6, 10).len());
    assert_eq!(9 * 255, sorted_deck(255, 255).len());
}

#[test]
fn deal_fills_glass_after_glass() {
    let balls = vec![
        Ball::RED,
        Ball::GREEN,
        Ball::BLUE,
        Ball::YELLOW,
        Ball::CYAN,
        Ball::PINK,
        Ball::RED,
        Ball::GREEN,
    ];
    let game = Game::deal(4, balls);

    assert_eq!(4, game.glasses().len());
    assert_eq!(
        &vec![Ball::RED, Ball::GREEN, Ball::BLUE, Ball::YELLOW],
        game.glasses()[0].balls()
    );
    assert_eq!(
        &vec![Ball::CYAN, Ball::PINK, Ball::RED, Ball::GREEN],
        game.glasses()[1].balls()
    );
    assert!(game.glasses()[2].is_empty());
    assert!(game.glasses()[3].is_empty());
    for glass in game.glasses() {
        assert_eq!(4, glass.size());
    }
    assert_eq!(None, game.selected());
}

#[test]
fn deal_leaves_the_last_glass_short() {
    let balls = vec![
        Ball::RED,
        Ball::GREEN,
        Ball::BLUE,
        Ball::YELLOW,
        Ball::CYAN,
        Ball::PINK,
    ];
    let game = Game::deal(5, balls);

    assert_eq!(4, game.glasses().len());
    assert_eq!(
        &vec![Ball::RED, Ball::GREEN, Ball::BLUE, Ball::YELLOW, Ball::CYAN],
        game.glasses()[0].balls()
    );
    assert_eq!(&vec![Ball::PINK], game.glasses()[1].balls());
    assert!(game.glasses()[2].is_empty());
    assert!(game.glasses()[3].is_empty());
    assert_eq!(5, game.glasses()[1].size());
}

#[test]
fn deal_raises_small_sizes_to_four() {
    let game = Game::deal(1, vec![Ball::RED, Ball::GREEN, Ball::BLUE]);

    assert_eq!(3, game.glasses().len());
    assert_eq!(
        &vec![Ball::RED, Ball::GREEN, Ball::BLUE],
        game.glasses()[0].balls()
    );
    assert_eq!(4, game.glasses()[0].size());
    assert_eq!(4, game.glasses()[2].size());
}

#[test]
fn deal_of_nothing_gives_two_empty_glasses() {
    let game = Game::deal(6, vec![]);

    assert_eq!(2, game.glasses().len());
    assert!(game.glasses()[0].is_empty());
    assert!(game.glasses()[1].is_empty());
    assert_eq!(6, game.glasses()[0].size());
    assert_eq!(6, game.glasses()[1].size());
}

#[test]
fn create_with_two_glasses_or_fewer_gives_two_empty_glasses() {
    for count in [0u8, 1, 2] {
        let game = Game::create(4, count);

        assert_eq!(2, game.glasses().len());
        assert!(game.glasses()[0].is_empty());
        assert!(game.glasses()[1].is_empty());
        assert_eq!(4, game.glasses()[0].size());
        assert_eq!(4, game.glasses()[1].size());
        assert_eq!(None, game.selected());
    }
}

#[test]
fn create_fills_one_glass_for_each_colour() {
    let game = Game::create(5, 6);

    assert_eq!(6, game.glasses().len());
    assert_eq!(None, game.selected());
    for glass in game.glasses() {
        assert_eq!(5, glass.size());
    }
    for glass in &game.glasses()[0..4] {
        assert!(glass.is_full());
    }
    assert!(game.glasses()[4].is_empty());
    assert!(game.glasses()[5].is_empty());

    let palette = Ball::get_colors();
    for (index, color) in palette.iter().enumerate() {
        let mut found = 0;
        for glass in game.glasses() {
            for ball in glass.balls() {
                if ball == color {
                    found += 1;
                }
            }
        }
        assert_eq!(if index < 4 { 5 } else { 0 }, found);
    }
}

#[test]
fn create_raises_small_sizes_to_four() {
    for size in [0u8, 1, 3, 4] {
        let game = Game::create(size, 3);

        assert_eq!(3, game.glasses().len());
        assert_eq!(&vec![Ball::RED; 4], game.glasses()[0].balls());
        for glass in game.glasses() {
            assert_eq!(4, glass.size());
        }
    }
}

#[test]
fn create_uses_no_more_colours_than_the_palette_has() {
    let game = Game::create(4, 255);

    assert_eq!(11, game.glasses().len());
    for glass in &game.glasses()[0..9] {
        assert!(glass.is_full());
    }
    assert!(game.glasses()[9].is_empty());
    assert!(game.glasses()[10].is_empty());
}

#[test]
fn create_shuffles_the_deck() {
    let sorted = sorted_deck(4, 11);
    let mut shuffled = false;
    for _ in 0..8 {
        let game = Game::create(4, 11);
        let mut dealt: Vec<Ball> = Vec::new();
        for glass in game.glasses() {
            dealt.extend(glass.balls().iter().copied());
        }
        assert_eq!(sorted.len(), dealt.len());
        if dealt != sorted {
            shuffled = true;
        }
    }
    assert!(shuffled);
}
