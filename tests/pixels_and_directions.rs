use aoclib::bit_iterator::BitIterator;
use aoclib::direction::Direction;
use aoclib::onoffpixel::OnOffPixel;

#[test]
fn turn_right() {
    assert_eq!(Direction::Up.turn_right(), Direction::Right);
    assert_eq!(Direction::Down.turn_right(), Direction::Left);
    assert_eq!(Direction::Left.turn_right(), Direction::Up);
    assert_eq!(Direction::Right.turn_right(), Direction::Down);
}

#[test]
fn turn_left() {
    assert_eq!(Direction::Up.turn_left(), Direction::Left);
    assert_eq!(Direction::Down.turn_left(), Direction::Right);
    assert_eq!(Direction::Left.turn_left(), Direction::Down);
    assert_eq!(Direction::Right.turn_left(), Direction::Up);
}

#[test]
fn reverse() {
    assert_eq!(Direction::Up.reverse(), Direction::Down);
    assert_eq!(Direction::Down.reverse(), Direction::Up);
    assert_eq!(Direction::Left.reverse(), Direction::Right);
    assert_eq!(Direction::Right.reverse(), Direction::Left);
}

#[test]
fn step_offsets_and_letters() {
    assert_eq!(Direction::Up.step_offset(), (0, 1));
    assert_eq!(Direction::Left.step_offset(), (-1, 0));
    assert_eq!(Direction::Down.letter(), 'D');
}

#[test]
fn parse() {
    assert_eq!(OnOffPixel::parse('.'), OnOffPixel::Off);
    assert_eq!(OnOffPixel::parse('#'), OnOffPixel::On);
}

#[test]
fn display() {
    assert_eq!(OnOffPixel::Off.render(), ".");
    assert_eq!(OnOffPixel::On.render(), "#");
}

#[test]
fn opposite() {
    assert_eq!(OnOffPixel::On.opposite(), OnOffPixel::Off);
    assert_eq!(OnOffPixel::Off.opposite(), OnOffPixel::On);
}

#[test]
fn is_on() {
    assert_eq!(OnOffPixel::On.is_on(), true);
    assert_eq!(OnOffPixel::Off.is_on(), false);
}

#[test]
fn low_order() {
    let mut it = BitIterator::new(0x0fu8);
    let mut bits: Vec<u8> = Vec::new();
    while let Some(b) = it.next() {
        bits.push(b);
    }
    assert_eq!(bits, vec![1, 1, 1, 1, 0, 0, 0, 0]);
}

#[test]
fn high_order() {
    let mut it = BitIterator::new(0x0fu8);
    let mut bits: Vec<u8> = Vec::new();
    while let Some(b) = it.next_back() {
        bits.push(b);
    }
    assert_eq!(bits, vec![0, 0, 0, 0, 1, 1, 1, 1]);
}

#[test]
fn bits_of_wider_values() {
    let mut it = BitIterator::new(0x8001u16);
    let mut count = 0;
    let mut first = None;
    while let Some(b) = it.next() {
        if first.is_none() {
            first = Some(b);
        }
        count += 1;
    }
    assert_eq!(count, 16);
    assert_eq!(first, Some(1));
    assert_eq!(it.next_back(), Some(1));
    assert_eq!(it.next_back(), Some(0));
}
