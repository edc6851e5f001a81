use tictactoe::board::PixelCoord;
use tictactoe::direction::{parse_direction, Column, DirectionError, Row};

#[test]
fn it_parses_directions() {
    assert_eq!(
        Ok(PixelCoord { x: 0, y: 0 }),
        PixelCoord::try_from("top-left")
    );
}

#[test]
fn both_token_orders_give_the_same_position() {
    assert_eq!(PixelCoord::try_from("left-top"), Ok(PixelCoord { x: 0, y: 0 }));
    assert_eq!(PixelCoord::try_from("top-left"), Ok(PixelCoord { x: 0, y: 0 }));
    assert_eq!(PixelCoord::try_from("bottom-right"), Ok(PixelCoord { x: 2, y: 2 }));
    assert_eq!(PixelCoord::try_from("right-bottom"), Ok(PixelCoord { x: 2, y: 2 }));
    assert_eq!(PixelCoord::try_from("center-left"), Ok(PixelCoord { x: 0, y: 1 }));
    assert_eq!(PixelCoord::try_from("left-center"), Ok(PixelCoord { x: 0, y: 1 }));
    assert_eq!(PixelCoord::try_from("top-center"), Ok(PixelCoord { x: 1, y: 0 }));
}

#[test]
fn center_alone_and_doubled() {
    assert_eq!(PixelCoord::try_from("center"), Ok(PixelCoord { x: 1, y: 1 }));
    assert_eq!(PixelCoord::try_from("center-center"), Ok(PixelCoord { x: 1, y: 1 }));
}

#[test]
fn case_and_white_space_are_ignored() {
    assert_eq!(PixelCoord::try_from("  CENTER \n"), Ok(PixelCoord { x: 1, y: 1 }));
    assert_eq!(PixelCoord::try_from(" Top - RIGHT\n"), Ok(PixelCoord { x: 2, y: 0 }));
}

#[test]
fn two_dashes_are_too_many_parts() {
    assert_eq!(PixelCoord::try_from("top-left-center"), Err(DirectionError::TooManyParts));
    assert_eq!(PixelCoord::try_from("--"), Err(DirectionError::TooManyParts));
    assert_eq!(PixelCoord::try_from("a-b-c-d"), Err(DirectionError::TooManyParts));
}

#[test]
fn unknown_tokens_are_classified() {
    assert_eq!(PixelCoord::try_from("foo-left"), Err(DirectionError::UnknownColumn));
    let r = PixelCoord::try_from("left-foo");
    assert!(matches!(r, Err(DirectionError::UnknownColumn) | Err(DirectionError::UnknownRow)));
    assert_eq!(r, Err(DirectionError::UnknownColumn));
    assert_eq!(PixelCoord::try_from("top-foo"), Err(DirectionError::UnknownRow));
    assert_eq!(PixelCoord::try_from("-"), Err(DirectionError::UnknownColumn));
}

#[test]
fn no_dash_and_not_center_is_unknown_direction() {
    assert_eq!(PixelCoord::try_from("left"), Err(DirectionError::UnknownDirection));
    assert_eq!(PixelCoord::try_from(""), Err(DirectionError::UnknownDirection));
}

#[test]
fn parse_direction_gives_row_and_column() {
    assert_eq!(parse_direction("bottom-left"), Ok((Row::Left, Column::Bottom)));
    assert_eq!(parse_direction("right-center"), Ok((Row::Right, Column::Center)));
}

#[test]
fn single_tokens() {
    assert_eq!(Row::parse_str(" Left "), Ok(Row::Left));
    assert_eq!(Row::parse_str("RIGHT"), Ok(Row::Right));
    assert_eq!(Row::parse_str("top"), Err(DirectionError::UnknownRow));
    assert_eq!(Column::parse_str("bottom"), Ok(Column::Bottom));
    assert_eq!(Column::parse_str("left"), Err(DirectionError::UnknownColumn));
    assert_eq!(Row::Left.as_pixel(), 0);
    assert_eq!(Row::Center.as_pixel(), 1);
    assert_eq!(Row::Right.as_pixel(), 2);
    assert_eq!(Column::Top.as_pixel(), 0);
    assert_eq!(Column::Center.as_pixel(), 1);
    assert_eq!(Column::Bottom.as_pixel(), 2);
}
