use path_tracer::colour::{normalising_factor, Colour};
use path_tracer::vec3::UNIT;

#[test]
fn test_max() {
    assert_eq!(
        normalising_factor(5 * UNIT, 10 * UNIT, 1000 * UNIT),
        1000 * UNIT
    );
    assert_eq!(
        normalising_factor(5 * UNIT, 1000 * UNIT, 10 * UNIT),
        1000 * UNIT
    );
    assert_eq!(
        normalising_factor(1000 * UNIT, 10 * UNIT, 5 * UNIT),
        1000 * UNIT
    );
}

#[test]
fn sanity_test() {
    let colour = Colour::new(250_000, 500_000, 1_000_000);
    assert_eq!(colour.get_red(), 250_000);
    assert_eq!(colour.get_green(), 500_000);
    assert_eq!(colour.get_blue(), 1_000_000);
}

#[test]
fn test_channels_never_exceed_one() {
    let colour = Colour::new(3 * UNIT, 7 * UNIT, UNIT / 2);
    assert!(colour.get_red() <= UNIT);
    assert!(colour.get_green() <= UNIT);
    assert!(colour.get_blue() <= UNIT);
}

#[test]
fn test_rescale_preserves_ratios() {
    // max is 4: every channel is divided by four.
    let colour = Colour::new(2 * UNIT, 4 * UNIT, UNIT);
    assert_eq!(colour.get_red(), UNIT / 2);
    assert_eq!(colour.get_green(), UNIT);
    assert_eq!(colour.get_blue(), UNIT / 4);
}

#[test]
fn test_small_channels_kept() {
    let colour = Colour::new(1, 2, 3);
    assert_eq!(colour.get_red(), 1);
    assert_eq!(colour.get_green(), 2);
    assert_eq!(colour.get_blue(), 3);
}
