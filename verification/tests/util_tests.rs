use breach::Either;

#[test]
fn is_left_recognizes_the_left_alternative() {
    let left: Either<u32, &str> = Either::Left(1);
    let right: Either<u32, &str> = Either::Right("x");
    assert!(left.is_left());
    assert!(!right.is_left());
}

#[test]
fn is_right_recognizes_the_right_alternative() {
    let left: Either<u32, &str> = Either::Left(1);
    let right: Either<u32, &str> = Either::Right("x");
    assert!(!left.is_right());
    assert!(right.is_right());
}
