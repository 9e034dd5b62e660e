use kosame::statement::{at_most_one, exactly_one, Error};

#[test]
fn at_most_one_row() {
    assert_eq!(at_most_one::<u32>(vec![]), Ok(None));
    assert_eq!(at_most_one(vec![7]), Ok(Some(7)));
    assert_eq!(at_most_one(vec![7, 8]), Err(Error::RowCount));
    assert_eq!(at_most_one(vec![7, 8, 9]), Err(Error::RowCount));
}

#[test]
fn exactly_one_row() {
    assert_eq!(exactly_one(Some(7)), Ok(7));
    assert_eq!(exactly_one::<u32>(None), Err(Error::RowCount));
}
