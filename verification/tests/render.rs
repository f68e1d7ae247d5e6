use ball_sort::{Ball, Game, Glass};

#[test]
fn each_colour_has_its_glyph() {
    assert_eq!("R", Ball::RED.symbol());
    assert_eq!("G", Ball::GREEN.symbol());
    assert_eq!("B", Ball::BLUE.symbol());
    assert_eq!("Y", Ball::YELLOW.symbol());
    assert_eq!("M", Ball::MAGENTA.symbol());
    assert_eq!("C", Ball::CYAN.symbol());
    assert_eq!("P", Ball::PINK.symbol());
    assert_eq!("O", Ball::ORANGE.symbol());
    assert_eq!("S", Ball::SHITTYCOLORIDK.symbol());
}

#[test]
fn empty_glass_is_drawn_with_blank_slots() {
    let glass = Glass::new(3, vec![]);

    assert_eq!("| |\n| |\n| |\n\\_/\n", glass.render());
}

#[test]
fn glass_is_drawn_top_first() {
    let glass = Glass::new(4, vec![Ball::RED, Ball::GREEN]);

    assert_eq!("| |\n| |\n|G|\n|R|\n\\_/\n", glass.render());
}

#[test]
fn full_glass_is_drawn_without_blank_slots() {
    let glass = Glass::new(3, vec![Ball::BLUE, Ball::YELLOW, Ball::MAGENTA]);

    assert_eq!("|M|\n|Y|\n|B|\n\\_/\n", glass.render());
}

#[test]
fn glass_without_slots_is_drawn_as_its_base() {
    let glass = Glass::new(0, vec![]);

    assert_eq!("\\_/\n", glass.render());
}

#[test]
fn game_is_drawn_glass_after_glass() {
    let a = Glass::new(2, vec![Ball::CYAN]);
    let b = Glass::new(2, vec![Ball::PINK, Ball::ORANGE]);
    let game = Game::new(vec![a, b]);

    assert_eq!("| |\n|C|\n\\_/\n\n|O|\n|P|\n\\_/\n\n", game.render());
}

#[test]
fn game_without_glasses_is_drawn_as_nothing() {
    let game = Game::new(vec![]);

    assert_eq!("", game.render());
}
