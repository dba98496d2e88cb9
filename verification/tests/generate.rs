use long_multiplication_command_line::generate::{
    author, bottom_border, long_sum, multiplication, operation_title, operations, position_title,
    sum_title, symbols, top_border,
};

#[test]
fn test_symbols_description() {
    // Arrange
    let mut text: String = String::from("");
    let expected: &str = "\n\
                          Symbols\n\
                          =======\n\
                          Pos. = Position.\n\
                          Ops. = Operations of the long multiplication.\n\
                          Sum. = Sum of each column of the multiplication.\n\
                          Sub n. = Subtotal of the last sum.\n\
                          Pro. = Product of the multiplication.\n\
                          n ^ = Carry-over.\n\
                          n R = The row number.\n\
                          n C = The column number of the sum of the rows.\n\
                          * Replace 'n' for a number.\n\
                          P = The product of multiplication.\n\
                          \n";

    // Action
    symbols(&mut text);

    // Assert
    assert_eq!(expected, text);
}

#[test]
fn test_top_border_size_two_digits() {
    // Arrange
    let multiplicand: String = String::from("2");
    let multiplier: String = String::from("4");
    let mut text: String = String::from("");
    let expected: &str = "┏━━━━━━━┓\n";

    // Action
    top_border(&multiplicand, &multiplier, &mut text);

    // Assert
    assert_eq!(expected, text);
}

#[test]
fn test_top_border_size_three_digits() {
    // Arrange
    let multiplicand: String = String::from("12");
    let multiplier: String = String::from("3");
    let mut text: String = String::from("");
    let expected: &str = "┏━━━━━━━━━━━┓\n";

    // Action
    top_border(&multiplicand, &multiplier, &mut text);

    // Assert
    assert_eq!(expected, text);
}

#[test]
fn test_top_border_size_five_digits() {
    // Arrange
    let multiplicand: String = String::from("345");
    let multiplier: String = String::from("12");
    let mut text: String = String::from("");
    let expected: &str = "┏━━━━━━━━━━━━━━━━━━━┓\n";

    // Action
    top_border(&multiplicand, &multiplier, &mut text);

    // Assert
    assert_eq!(expected, text);
}

#[test]
fn test_top_border_size_twelve_digits() {
    // Arrange
    let multiplicand: String = String::from("123456");
    let multiplier: String = String::from("123456");
    let mut text: String = String::from("");
    let expected: &str = "┏━━━━━━━━━━━━━━━━━━━━━━━━━━━━━━━━━━━━━━━━━━━━━━━┓\n";

    // Action
    top_border(&multiplicand, &multiplier, &mut text);

    // Assert
    assert_eq!(expected, text);
}

#[test]
fn test_bottom_border_size_two_digits() {
    // Arrange
    let multiplicand: usize = 7;
    let multiplier: usize = 3;
    let mut text: String = String::from("");
    let expected: &str = "┗━━━┷━━━┛\n";

    // Action
    bottom_border(multiplicand, multiplier, &mut text);

    // Assert
    assert_eq!(expected, text);
}

#[test]
fn test_bottom_border_size_three_digits() {
    // Arrange
    let multiplicand: usize = 8;
    let multiplier: usize = 43;
    let mut text: String = String::from("");
    let expected: &str = "┗━━━┷━━━┷━━━┛\n";

    // Action
    bottom_border(multiplicand, multiplier, &mut text);

    // Assert
    assert_eq!(expected, text);
}

#[test]
fn test_bottom_border_size_five_digits() {
    // Arrange
    let multiplicand: usize = 519;
    let multiplier: usize = 43;
    let mut text: String = String::from("");
    let expected: &str = "┗━━━┷━━━┷━━━┷━━━┷━━━┛\n";

    // Action
    bottom_border(multiplicand, multiplier, &mut text);

    // Assert
    assert_eq!(expected, text);
}

#[test]
fn test_bottom_border_size_twelve_digits() {
    // Arrange
    let multiplicand: usize = 12;
    let multiplier: usize = 1234567890;
    let mut text: String = String::from("");
    let expected: &str = "┗━━━┷━━━┷━━━┷━━━┷━━━┷━━━┷━━━┷━━━┷━━━┷━━━┷━━━┷━━━┛\n";

    // Action
    bottom_border(multiplicand, multiplier, &mut text);

    // Assert
    assert_eq!(expected, text);
}

#[test]
fn test_position_title_size_two_digits() {
    // Arrange
    let multiplicand: String = String::from("6");
    let multiplier: String = String::from("3");
    let mut text: String = String::from("");
    let expected: &str = "┃Pos.   ┃\n\
                          ┠┄┄┄┬┄┄┄┨\n\
                          ┃ 2 │ 1 ┃\n\
                          ┣━━━┷━━━┫\n";

    // Action
    position_title(&multiplicand, &multiplier, &mut text);

    // Assert
    assert_eq!(expected, text);
}

#[test]
fn test_position_title_size_three_digits() {
    // Arrange
    let multiplicand: String = String::from("18");
    let multiplier: String = String::from("6");
    let mut text: String = String::from("");
    let expected: &str = "┃Pos.       ┃\n\
                          ┠┄┄┄┬┄┄┄┬┄┄┄┨\n\
                          ┃ 3 │ 2 │ 1 ┃\n\
                          ┣━━━┷━━━┷━━━┫\n";

    // Action
    position_title(&multiplicand, &multiplier, &mut text);

    // Assert
    assert_eq!(expected, text);
}

#[test]
fn test_position_title_size_five_digits() {
    // Arrange
    let multiplicand: String = String::from("78");
    let multiplier: String = String::from("327");
    let mut text: String = String::from("");
    let expected: &str = "┃Pos.               ┃\n\
                          ┠┄┄┄┬┄┄┄┬┄┄┄┬┄┄┄┬┄┄┄┨\n\
                          ┃ 5 │ 4 │ 3 │ 2 │ 1 ┃\n\
                          ┣━━━┷━━━┷━━━┷━━━┷━━━┫\n";

    // Action
    position_title(&multiplicand, &multiplier, &mut text);

    // Assert
    assert_eq!(expected, text);
}

#[test]
fn test_position_title_size_eleven_digits() {
    // Arrange
    let multiplicand: String = String::from("123456");
    let multiplier: String = String::from("54321");
    let mut text: String = String::from("");
    let expected: &str = "┃Pos.                                       ┃\n\
                          ┠┄┄┄┬┄┄┄┬┄┄┄┬┄┄┄┬┄┄┄┬┄┄┄┬┄┄┄┬┄┄┄┬┄┄┄┬┄┄┄┬┄┄┄┨\n\
                          ┃ 11│ 10│ 9 │ 8 │ 7 │ 6 │ 5 │ 4 │ 3 │ 2 │ 1 ┃\n\
                          ┣━━━┷━━━┷━━━┷━━━┷━━━┷━━━┷━━━┷━━━┷━━━┷━━━┷━━━┫\n";

    // Action
    position_title(&multiplicand, &multiplier, &mut text);

    // Assert
    assert_eq!(expected, text);
}

#[test]
fn test_operation_title_size_two_digits() {
    // Arrange
    let multiplicand: String = String::from("9");
    let multiplier: String = String::from("1");
    let mut text: String = String::from("");
    let expected: &str = "┃Ops.   ┃\n\
                          ┣━━━┯━━━┫\n";

    // Action
    operation_title(&multiplicand, &multiplier, &mut text);

    // Assert
    assert_eq!(expected, text);
}

#[test]
fn test_operation_title_size_three_digits() {
    // Arrange
    let multiplicand: String = String::from("53");
    let multiplier: String = String::from("4");
    let mut text: String = String::from("");
    let expected: &str = "┃Ops.       ┃\n\
                          ┣━━━┯━━━┯━━━┫\n";

    // Action
    operation_title(&multiplicand, &multiplier, &mut text);

    // Assert
    assert_eq!(expected, text);
}

#[test]
fn test_operation_title_size_five_digits() {
    // Arrange
    let multiplicand: String = String::from("53");
    let multiplier: String = String::from("618");
    let mut text: String = String::from("");
    let expected: &str = "┃Ops.               ┃\n\
                          ┣━━━┯━━━┯━━━┯━━━┯━━━┫\n";

    // Action
    operation_title(&multiplicand, &multiplier, &mut text);

    // Assert
    assert_eq!(expected, text);
}

#[test]
fn test_operation_title_size_eleven_digits() {
    // Arrange
    let multiplicand: String = String::from("654321");
    let multiplier: String = String::from("12345");
    let mut text: String = String::from("");
    let expected: &str = "┃Ops.                                       ┃\n\
                          ┣━━━┯━━━┯━━━┯━━━┯━━━┯━━━┯━━━┯━━━┯━━━┯━━━┯━━━┫\n";

    // Action
    operation_title(&multiplicand, &multiplier, &mut text);

    // Assert
    assert_eq!(expected, text);
}

#[test]
fn test_multiplication_size_two_digits() {
    // Arrange
    let multiplicand: usize = 8;
    let multiplier: usize = 4;
    let mut text: String = String::from("");
    let expected: &str = "┃   │ 8 ┃\n\
                          ┃ x │ 4 ┃\n\
                          ┣━━━┿━━━┫\n";

    // Action
    multiplication(multiplicand, multiplier, &mut text);

    // Assert
    assert_eq!(expected, text);
}

#[test]
fn test_multiplication_size_three_digits() {
    // Arrange
    let multiplicand: usize = 2;
    let multiplier: usize = 37;
    let mut text: String = String::from("");
    let expected: &str = "┃   │   │ 2 ┃\n\
                          ┃ x │ 3 │ 7 ┃\n\
                          ┣━━━┿━━━┿━━━┫\n";

    // Action
    multiplication(multiplicand, multiplier, &mut text);

    // Assert
    assert_eq!(expected, text);
}

#[test]
fn test_multiplication_size_five_digits() {
    // Arrange
    let multiplicand: usize = 81;
    let multiplier: usize = 925;
    let mut text: String = String::from("");
    let expected: &str = "┃   │   │   │ 8 │ 1 ┃\n\
                          ┃   │ x │ 9 │ 2 │ 5 ┃\n\
                          ┣━━━┿━━━┿━━━┿━━━┿━━━┫\n";

    // Action
    multiplication(multiplicand, multiplier, &mut text);

    // Assert
    assert_eq!(expected, text);
}

#[test]
fn test_multiplication_size_eleven_digits() {
    // Arrange
    let multiplicand: usize = 12345;
    let multiplier: usize = 654321;
    let mut text: String = String::from("");
    let expected: &str = "┃   │   │   │   │   │   │ 1 │ 2 │ 3 │ 4 │ 5 ┃\n\
                          ┃   │   │   │   │ x │ 6 │ 5 │ 4 │ 3 │ 2 │ 1 ┃\n\
                          ┣━━━┿━━━┿━━━┿━━━┿━━━┿━━━┿━━━┿━━━┿━━━┿━━━┿━━━┫\n";

    // Action
    multiplication(multiplicand, multiplier, &mut text);

    // Assert
    assert_eq!(expected, text);
}

#[test]
fn test_multiplication_multiplicand_bigger_than_a_multiplier() {
    // Arrange
    let multiplicand: usize = 1234;
    let multiplier: usize = 5;
    let mut text: String = String::from("");
    let expected: &str = "┃   │ 1 │ 2 │ 3 │ 4 ┃\n\
                          ┃   │   │   │ x │ 5 ┃\n\
                          ┣━━━┿━━━┿━━━┿━━━┿━━━┫\n";

    // Action
    multiplication(multiplicand, multiplier, &mut text);

    // Assert
    assert_eq!(expected, text);
}

#[test]
fn test_multiplication_multiplier_bigger_than_a_multiplicand() {
    // Arrange
    let multiplicand: usize = 8765;
    let multiplier: usize = 1234;
    let mut text: String = String::from("");
    let expected: &str = "┃   │   │   │   │ 8 │ 7 │ 6 │ 5 ┃\n\
                          ┃   │   │   │ x │ 1 │ 2 │ 3 │ 4 ┃\n\
                          ┣━━━┿━━━┿━━━┿━━━┿━━━┿━━━┿━━━┿━━━┫\n";

    // Action
    multiplication(multiplicand, multiplier, &mut text);

    // Assert
    assert_eq!(expected, text);
}

#[test]
fn test_operations_with_three_digits_multiplicand_is_greater() {
    // Arrange
    let multiplicand: usize = 25;
    let multiplier: usize = 3;
    let mut text: String = String::from("");
    let expected: &str = "┃ 0 │ 1 │   ┃ 1 ^\n\
                          ┠┈┈┈┼┈┈┈┼┈┈┈┨\n\
                          ┃   │ 6 │ 5 ┃ 1 R\n\
                          ┣━━━┷━━━┷━━━┫\n";

    // Action
    operations(multiplicand, multiplier, &mut text);

    // Assert
    assert_eq!(expected, text);
}

#[test]
fn test_operations_with_three_digits_multiplicand_is_less() {
    // Arrange
    let multiplicand: usize = 3;
    let multiplier: usize = 25;
    let mut text: String = String::from("");
    let expected: &str = "┃   │ 1 │   ┃ 1 ^\n\
                          ┠┈┈┈┼┈┈┈┼┈┈┈┨\n\
                          ┃   │   │ 5 ┃ 1 R\n\
                          ┠───┼───┼───┨\n\
                          ┃ 0 │   │   ┃ 2 ^\n\
                          ┠┈┈┈┼┈┈┈┼┈┈┈┨\n\
                          ┃   │ 6 │   ┃ 2 R\n\
                          ┣━━━┷━━━┷━━━┫\n";

    // Action
    operations(multiplicand, multiplier, &mut text);

    // Assert
    assert_eq!(expected, text);
}

#[test]
fn test_operations_with_four_digit() {
    // Arrange
    let multiplicand: usize = 13;
    let multiplier: usize = 26;
    let mut text: String = String::from("");
    let expected: &str = "┃   │ 0 │ 1 │   ┃ 1 ^\n\
                          ┠┈┈┈┼┈┈┈┼┈┈┈┼┈┈┈┨\n\
                          ┃   │   │ 6 │ 8 ┃ 1 R\n\
                          ┠───┼───┼───┼───┨\n\
                          ┃ 0 │ 0 │   │   ┃ 2 ^\n\
                          ┠┈┈┈┼┈┈┈┼┈┈┈┼┈┈┈┨\n\
                          ┃   │ 2 │ 6 │   ┃ 2 R\n\
                          ┣━━━┷━━━┷━━━┷━━━┫\n";

    // Action
    operations(multiplicand, multiplier, &mut text);

    // Assert
    assert_eq!(expected, text);
}

#[test]
fn test_operations_with_eleven_digits_multiplicand_is_greater() {
    // Arrange
    let multiplicand: usize = 246802468;
    let multiplier: usize = 357;
    let mut text: String = String::from("");
    let expected: &str = "┃   │   │ 1 │ 2 │ 4 │ 5 │ 0 │ 1 │ 2 │ 4 │ 5 │   ┃ 1 ^\n\
                          ┠┈┈┈┼┈┈┈┼┈┈┈┼┈┈┈┼┈┈┈┼┈┈┈┼┈┈┈┼┈┈┈┼┈┈┈┼┈┈┈┼┈┈┈┼┈┈┈┨\n\
                          ┃   │   │   │ 4 │ 8 │ 2 │ 6 │ 0 │ 4 │ 8 │ 2 │ 6 ┃ 1 R\n\
                          ┠───┼───┼───┼───┼───┼───┼───┼───┼───┼───┼───┼───┨\n\
                          ┃   │ 1 │ 2 │ 3 │ 4 │ 0 │ 1 │ 2 │ 3 │ 4 │   │   ┃ 2 ^\n\
                          ┠┈┈┈┼┈┈┈┼┈┈┈┼┈┈┈┼┈┈┈┼┈┈┈┼┈┈┈┼┈┈┈┼┈┈┈┼┈┈┈┼┈┈┈┼┈┈┈┨\n\
                          ┃   │   │ 0 │ 0 │ 0 │ 0 │ 0 │ 0 │ 0 │ 0 │ 0 │   ┃ 2 R\n\
                          ┠───┼───┼───┼───┼───┼───┼───┼───┼───┼───┼───┼───┨\n\
                          ┃ 0 │ 1 │ 1 │ 2 │ 0 │ 0 │ 1 │ 1 │ 2 │   │   │   ┃ 3 ^\n\
                          ┠┈┈┈┼┈┈┈┼┈┈┈┼┈┈┈┼┈┈┈┼┈┈┈┼┈┈┈┼┈┈┈┼┈┈┈┼┈┈┈┼┈┈┈┼┈┈┈┨\n\
                          ┃   │ 6 │ 2 │ 8 │ 4 │ 0 │ 6 │ 2 │ 8 │ 4 │   │   ┃ 3 R\n\
                          ┣━━━┷━━━┷━━━┷━━━┷━━━┷━━━┷━━━┷━━━┷━━━┷━━━┷━━━┷━━━┫\n";

    // Action
    operations(multiplicand, multiplier, &mut text);

    // Assert
    assert_eq!(expected, text);
}

#[test]
fn test_operations_with_eleven_digits_multiplicand_is_less() {
    // Arrange
    let multiplicand: usize = 357;
    let multiplier: usize = 246802468;
    let mut text: String = String::from("");
    let expected: &str = "┃   │   │   │   │   │   │   │   │ 2 │ 4 │ 5 │   ┃ 1 ^\n\
                          ┠┈┈┈┼┈┈┈┼┈┈┈┼┈┈┈┼┈┈┈┼┈┈┈┼┈┈┈┼┈┈┈┼┈┈┈┼┈┈┈┼┈┈┈┼┈┈┈┨\n\
                          ┃   │   │   │   │   │   │   │   │   │ 4 │ 0 │ 6 ┃ 1 R\n\
                          ┠───┼───┼───┼───┼───┼───┼───┼───┼───┼───┼───┼───┨\n\
                          ┃   │   │   │   │   │   │   │ 1 │ 3 │ 4 │   │   ┃ 2 ^\n\
                          ┠┈┈┈┼┈┈┈┼┈┈┈┼┈┈┈┼┈┈┈┼┈┈┈┼┈┈┈┼┈┈┈┼┈┈┈┼┈┈┈┼┈┈┈┼┈┈┈┨\n\
                          ┃   │   │   │   │   │   │   │   │ 8 │ 0 │ 2 │   ┃ 2 R\n\
                          ┠───┼───┼───┼───┼───┼───┼───┼───┼───┼───┼───┼───┨\n\
                          ┃   │   │   │   │   │   │ 1 │ 2 │ 2 │   │   │   ┃ 3 ^\n\
                          ┠┈┈┈┼┈┈┈┼┈┈┈┼┈┈┈┼┈┈┈┼┈┈┈┼┈┈┈┼┈┈┈┼┈┈┈┼┈┈┈┼┈┈┈┼┈┈┈┨\n\
                          ┃   │   │   │   │   │   │   │ 2 │ 0 │ 8 │   │   ┃ 3 R\n\
                          ┠───┼───┼───┼───┼───┼───┼───┼───┼───┼───┼───┼───┨\n\
                          ┃   │   │   │   │   │ 0 │ 1 │ 1 │   │   │   │   ┃ 4 ^\n\
                          ┠┈┈┈┼┈┈┈┼┈┈┈┼┈┈┈┼┈┈┈┼┈┈┈┼┈┈┈┼┈┈┈┼┈┈┈┼┈┈┈┼┈┈┈┼┈┈┈┨\n\
                          ┃   │   │   │   │   │   │ 6 │ 0 │ 4 │   │   │   ┃ 4 R\n\
                          ┠───┼───┼───┼───┼───┼───┼───┼───┼───┼───┼───┼───┨\n\
                          ┃   │   │   │   │ 0 │ 0 │ 0 │   │   │   │   │   ┃ 5 ^\n\
                          ┠┈┈┈┼┈┈┈┼┈┈┈┼┈┈┈┼┈┈┈┼┈┈┈┼┈┈┈┼┈┈┈┼┈┈┈┼┈┈┈┼┈┈┈┼┈┈┈┨\n\
                          ┃   │   │   │   │   │ 0 │ 0 │ 0 │   │   │   │   ┃ 5 R\n\
                          ┠───┼───┼───┼───┼───┼───┼───┼───┼───┼───┼───┼───┨\n\
                          ┃   │   │   │ 2 │ 4 │ 5 │   │   │   │   │   │   ┃ 6 ^\n\
                          ┠┈┈┈┼┈┈┈┼┈┈┈┼┈┈┈┼┈┈┈┼┈┈┈┼┈┈┈┼┈┈┈┼┈┈┈┼┈┈┈┼┈┈┈┼┈┈┈┨\n\
                          ┃   │   │   │   │ 4 │ 0 │ 6 │   │   │   │   │   ┃ 6 R\n\
                          ┠───┼───┼───┼───┼───┼───┼───┼───┼───┼───┼───┼───┨\n\
                          ┃   │   │ 1 │ 3 │ 4 │   │   │   │   │   │   │   ┃ 7 ^\n\
                          ┠┈┈┈┼┈┈┈┼┈┈┈┼┈┈┈┼┈┈┈┼┈┈┈┼┈┈┈┼┈┈┈┼┈┈┈┼┈┈┈┼┈┈┈┼┈┈┈┨\n\
                          ┃   │   │   │ 8 │ 0 │ 2 │   │   │   │   │   │   ┃ 7 R\n\
                          ┠───┼───┼───┼───┼───┼───┼───┼───┼───┼───┼───┼───┨\n\
                          ┃   │ 1 │ 2 │ 2 │   │   │   │   │   │   │   │   ┃ 8 ^\n\
                          ┠┈┈┈┼┈┈┈┼┈┈┈┼┈┈┈┼┈┈┈┼┈┈┈┼┈┈┈┼┈┈┈┼┈┈┈┼┈┈┈┼┈┈┈┼┈┈┈┨\n\
                          ┃   │   │ 2 │ 0 │ 8 │   │   │   │   │   │   │   ┃ 8 R\n\
                          ┠───┼───┼───┼───┼───┼───┼───┼───┼───┼───┼───┼───┨\n\
                          ┃ 0 │ 1 │ 1 │   │   │   │   │   │   │   │   │   ┃ 9 ^\n\
                          ┠┈┈┈┼┈┈┈┼┈┈┈┼┈┈┈┼┈┈┈┼┈┈┈┼┈┈┈┼┈┈┈┼┈┈┈┼┈┈┈┼┈┈┈┼┈┈┈┨\n\
                          ┃   │ 6 │ 0 │ 4 │   │   │   │   │   │   │   │   ┃ 9 R\n\
                          ┣━━━┷━━━┷━━━┷━━━┷━━━┷━━━┷━━━┷━━━┷━━━┷━━━┷━━━┷━━━┫\n";

    // Action
    operations(multiplicand, multiplier, &mut text);

    // Assert
    assert_eq!(expected, text);
}

#[test]
fn test_operations_with_thirteen_rows() {
    // Arrange
    let multiplicand: usize = 7;
    let multiplier: usize = 9876543210123;
    let mut text: String = String::from("");
    let expected: &str = "┃   │   │   │   │   │   │   │   │   │   │   │   │ 2 │   ┃ 1 ^\n\
                          ┠┈┈┈┼┈┈┈┼┈┈┈┼┈┈┈┼┈┈┈┼┈┈┈┼┈┈┈┼┈┈┈┼┈┈┈┼┈┈┈┼┈┈┈┼┈┈┈┼┈┈┈┼┈┈┈┨\n\
                          ┃   │   │   │   │   │   │   │   │   │   │   │   │   │ 1 ┃ 1 R\n\
                          ┠───┼───┼───┼───┼───┼───┼───┼───┼───┼───┼───┼───┼───┼───┨\n\
                          ┃   │   │   │   │   │   │   │   │   │   │   │ 1 │   │   ┃ 2 ^\n\
                          ┠┈┈┈┼┈┈┈┼┈┈┈┼┈┈┈┼┈┈┈┼┈┈┈┼┈┈┈┼┈┈┈┼┈┈┈┼┈┈┈┼┈┈┈┼┈┈┈┼┈┈┈┼┈┈┈┨\n\
                          ┃   │   │   │   │   │   │   │   │   │   │   │   │ 4 │   ┃ 2 R\n\
                          ┠───┼───┼───┼───┼───┼───┼───┼───┼───┼───┼───┼───┼───┼───┨\n\
                          ┃   │   │   │   │   │   │   │   │   │   │ 0 │   │   │   ┃ 3 ^\n\
                          ┠┈┈┈┼┈┈┈┼┈┈┈┼┈┈┈┼┈┈┈┼┈┈┈┼┈┈┈┼┈┈┈┼┈┈┈┼┈┈┈┼┈┈┈┼┈┈┈┼┈┈┈┼┈┈┈┨\n\
                          ┃   │   │   │   │   │   │   │   │   │   │   │ 7 │   │   ┃ 3 R\n\
                          ┠───┼───┼───┼───┼───┼───┼───┼───┼───┼───┼───┼───┼───┼───┨\n\
                          ┃   │   │   │   │   │   │   │   │   │ 0 │   │   │   │   ┃ 4 ^\n\
                          ┠┈┈┈┼┈┈┈┼┈┈┈┼┈┈┈┼┈┈┈┼┈┈┈┼┈┈┈┼┈┈┈┼┈┈┈┼┈┈┈┼┈┈┈┼┈┈┈┼┈┈┈┼┈┈┈┨\n\
                          ┃   │   │   │   │   │   │   │   │   │   │ 0 │   │   │   ┃ 4 R\n\
                          ┠───┼───┼───┼───┼───┼───┼───┼───┼───┼───┼───┼───┼───┼───┨\n\
                          ┃   │   │   │   │   │   │   │   │ 0 │   │   │   │   │   ┃ 5 ^\n\
                          ┠┈┈┈┼┈┈┈┼┈┈┈┼┈┈┈┼┈┈┈┼┈┈┈┼┈┈┈┼┈┈┈┼┈┈┈┼┈┈┈┼┈┈┈┼┈┈┈┼┈┈┈┼┈┈┈┨\n\
                          ┃   │   │   │   │   │   │   │   │   │ 7 │   │   │   │   ┃ 5 R\n\
                          ┠───┼───┼───┼───┼───┼───┼───┼───┼───┼───┼───┼───┼───┼───┨\n\
                          ┃   │   │   │   │   │   │   │ 1 │   │   │   │   │   │   ┃ 6 ^\n\
                          ┠┈┈┈┼┈┈┈┼┈┈┈┼┈┈┈┼┈┈┈┼┈┈┈┼┈┈┈┼┈┈┈┼┈┈┈┼┈┈┈┼┈┈┈┼┈┈┈┼┈┈┈┼┈┈┈┨\n\
                          ┃   │   │   │   │   │   │   │   │ 4 │   │   │   │   │   ┃ 6 R\n\
                          ┠───┼───┼───┼───┼───┼───┼───┼───┼───┼───┼───┼───┼───┼───┨\n\
                          ┃   │   │   │   │   │   │ 2 │   │   │   │   │   │   │   ┃ 7 ^\n\
                          ┠┈┈┈┼┈┈┈┼┈┈┈┼┈┈┈┼┈┈┈┼┈┈┈┼┈┈┈┼┈┈┈┼┈┈┈┼┈┈┈┼┈┈┈┼┈┈┈┼┈┈┈┼┈┈┈┨\n\
                          ┃   │   │   │   │   │   │   │ 1 │   │   │   │   │   │   ┃ 7 R\n\
                          ┠───┼───┼───┼───┼───┼───┼───┼───┼───┼───┼───┼───┼───┼───┨\n\
                          ┃   │   │   │   │   │ 2 │   │   │   │   │   │   │   │   ┃ 8 ^\n\
                          ┠┈┈┈┼┈┈┈┼┈┈┈┼┈┈┈┼┈┈┈┼┈┈┈┼┈┈┈┼┈┈┈┼┈┈┈┼┈┈┈┼┈┈┈┼┈┈┈┼┈┈┈┼┈┈┈┨\n\
                          ┃   │   │   │   │   │   │ 8 │   │   │   │   │   │   │   ┃ 8 R\n\
                          ┠───┼───┼───┼───┼───┼───┼───┼───┼───┼───┼───┼───┼───┼───┨\n\
                          ┃   │   │   │   │ 3 │   │   │   │   │   │   │   │   │   ┃ 9 ^\n\
                          ┠┈┈┈┼┈┈┈┼┈┈┈┼┈┈┈┼┈┈┈┼┈┈┈┼┈┈┈┼┈┈┈┼┈┈┈┼┈┈┈┼┈┈┈┼┈┈┈┼┈┈┈┼┈┈┈┨\n\
                          ┃   │   │   │   │   │ 5 │   │   │   │   │   │   │   │   ┃ 9 R\n\
                          ┠───┼───┼───┼───┼───┼───┼───┼───┼───┼───┼───┼───┼───┼───┨\n\
                          ┃   │   │   │ 4 │   │   │   │   │   │   │   │   │   │   ┃ 10 ^\n\
                          ┠┈┈┈┼┈┈┈┼┈┈┈┼┈┈┈┼┈┈┈┼┈┈┈┼┈┈┈┼┈┈┈┼┈┈┈┼┈┈┈┼┈┈┈┼┈┈┈┼┈┈┈┼┈┈┈┨\n\
                          ┃   │   │   │   │ 2 │   │   │   │   │   │   │   │   │   ┃ 10 R\n\
                          ┠───┼───┼───┼───┼───┼───┼───┼───┼───┼───┼───┼───┼───┼───┨\n\
                          ┃   │   │ 4 │   │   │   │   │   │   │   │   │   │   │   ┃ 11 ^\n\
                          ┠┈┈┈┼┈┈┈┼┈┈┈┼┈┈┈┼┈┈┈┼┈┈┈┼┈┈┈┼┈┈┈┼┈┈┈┼┈┈┈┼┈┈┈┼┈┈┈┼┈┈┈┼┈┈┈┨\n\
                          ┃   │   │   │ 9 │   │   │   │   │   │   │   │   │   │   ┃ 11 R\n\
                          ┠───┼───┼───┼───┼───┼───┼───┼───┼───┼───┼───┼───┼───┼───┨\n\
                          ┃   │ 5 │   │   │   │   │   │   │   │   │   │   │   │   ┃ 12 ^\n\
                          ┠┈┈┈┼┈┈┈┼┈┈┈┼┈┈┈┼┈┈┈┼┈┈┈┼┈┈┈┼┈┈┈┼┈┈┈┼┈┈┈┼┈┈┈┼┈┈┈┼┈┈┈┼┈┈┈┨\n\
                          ┃   │   │ 6 │   │   │   │   │   │   │   │   │   │   │   ┃ 12 R\n\
                          ┠───┼───┼───┼───┼───┼───┼───┼───┼───┼───┼───┼───┼───┼───┨\n\
                          ┃ 6 │   │   │   │   │   │   │   │   │   │   │   │   │   ┃ 13 ^\n\
                          ┠┈┈┈┼┈┈┈┼┈┈┈┼┈┈┈┼┈┈┈┼┈┈┈┼┈┈┈┼┈┈┈┼┈┈┈┼┈┈┈┼┈┈┈┼┈┈┈┼┈┈┈┼┈┈┈┨\n\
                          ┃   │ 3 │   │   │   │   │   │   │   │   │   │   │   │   ┃ 13 R\n\
                          ┣━━━┷━━━┷━━━┷━━━┷━━━┷━━━┷━━━┷━━━┷━━━┷━━━┷━━━┷━━━┷━━━┷━━━┫\n";

    // Action
    operations(multiplicand, multiplier, &mut text);

    // Assert
    assert_eq!(expected, text);
}

#[test]
fn test_sum_title_size_two_digits() {
    // Arrange
    let multiplicand: usize = 4;
    let multiplier: usize = 2;
    let mut text: String = String::from("");
    let expected: &str = "┃Sum.   ┃\n\
                          ┣━━━┯━━━┫\n";

    // Action
    sum_title(multiplicand, multiplier, &mut text);

    // Assert
    assert_eq!(expected, text);
}

#[test]
fn test_sum_title_size_three_digits() {
    // Arrange
    let multiplicand: usize = 19;
    let multiplier: usize = 5;
    let mut text: String = String::from("");
    let expected: &str = "┃Sum.       ┃\n\
                          ┣━━━┯━━━┯━━━┫\n";

    // Action
    sum_title(multiplicand, multiplier, &mut text);

    // Assert
    assert_eq!(expected, text);
}

#[test]
fn test_sum_title_size_five_digits() {
    // Arrange
    let multiplicand: usize = 73;
    let multiplier: usize = 438;
    let mut text: String = String::from("");
    let expected: &str = "┃Sum.               ┃\n\
                          ┣━━━┯━━━┯━━━┯━━━┯━━━┫\n";

    // Action
    sum_title(multiplicand, multiplier, &mut text);

    // Assert
    assert_eq!(expected, text);
}

#[test]
fn test_sum_title_size_eleven_digits() {
    // Arrange
    let multiplicand: usize = 123456;
    let multiplier: usize = 54321;
    let mut text: String = String::from("");
    let expected: &str = "┃Sum.                                       ┃\n\
                          ┣━━━┯━━━┯━━━┯━━━┯━━━┯━━━┯━━━┯━━━┯━━━┯━━━┯━━━┫\n";

    // Action
    sum_title(multiplicand, multiplier, &mut text);

    // Assert
    assert_eq!(expected, text);
}

#[test]
fn test_long_sum_with_one_digit() {
    // Arrange
    let multiplicand: usize = 3;
    let multiplier: usize = 2;
    let mut text: String = String::from("");
    let expected: &str = "┃   │ 6 ┃ 1 C\n\
                          ┠┈┈┈┼┈┈┈┨\n\
                          ┃ 0 │   ┃ 2 C\n\
                          ┣━━━┷━━━┫\n\
                          ┃Pro.   ┃\n\
                          ┣━━━┯━━━┫\n\
                          ┃ 0 │ 6 ┃ P\n";

    // Action
    long_sum(multiplicand, multiplier, &mut text);

    // Assert
    assert_eq!(expected, text);
}

#[test]
fn test_long_sum_with_two_digits() {
    // Arrange
    let multiplicand: usize = 9;
    let multiplier: usize = 9;
    let mut text: String = String::from("");
    let expected: &str = "┃   │ 1 ┃ 1 C\n\
                          ┠┈┈┈┼┈┈┈┨\n\
                          ┃ 8 │   ┃ 2 C\n\
                          ┣━━━┷━━━┫\n\
                          ┃Pro.   ┃\n\
                          ┣━━━┯━━━┫\n\
                          ┃ 8 │ 1 ┃ P\n";

    // Action
    long_sum(multiplicand, multiplier, &mut text);

    // Assert
    assert_eq!(expected, text);
}

#[test]
fn test_long_sum_with_three_digits() {
    // Arrange
    let multiplicand: usize = 37;
    let multiplier: usize = 5;
    let mut text: String = String::from("");
    let expected: &str = "┃   │   │ 5 ┃ 1 C\n\
                          ┠┈┈┈┼┈┈┈┼┈┈┈┨\n\
                          ┃   │ 8 │   ┃ 2 C\n\
                          ┠┈┈┈┼┈┈┈┼┈┈┈┨\n\
                          ┃ 1 │   │   ┃ 3 C\n\
                          ┣━━━┷━━━┷━━━┫\n\
                          ┃Pro.       ┃\n\
                          ┣━━━┯━━━┯━━━┫\n\
                          ┃ 1 │ 8 │ 5 ┃ P\n";

    // Action
    long_sum(multiplicand, multiplier, &mut text);

    // Assert
    assert_eq!(expected, text);
}

#[test]
fn test_long_sum_with_four_digit() {
    // Arrange
    let multiplicand: usize = 13;
    let multiplier: usize = 26;
    let mut text: String = String::from("");
    let expected: &str = "┃   │   │   │ 8 ┃ 1 C\n\
                          ┠┈┈┈┼┈┈┈┼┈┈┈┼┈┈┈┨\n\
                          ┃   │ 1 │ 3 │   ┃ 2 C\n\
                          ┠┈┈┈┼┈┈┈┼┈┈┈┼┈┈┈┨\n\
                          ┃   │ 2 │   │   ┃ 3 C\n\
                          ┠┈┈┈┼┈┈┈┼┈┈┈┼┈┈┈┨\n\
                          ┃ 0 │   │   │   ┃ 4 C\n\
                          ┣━━━┷━━━┷━━━┷━━━┫\n\
                          ┃Pro.           ┃\n\
                          ┣━━━┯━━━┯━━━┯━━━┫\n\
                          ┃ 0 │ 3 │ 3 │ 8 ┃ P\n";

    // Action
    long_sum(multiplicand, multiplier, &mut text);

    // Assert
    assert_eq!(expected, text);
}

#[test]
fn test_long_sum_with_eleven_digits_multiplicand_is_greater() {
    // Arrange
    let multiplicand: usize = 246802468;
    let multiplier: usize = 357;
    let mut text: String = String::from("");
    let expected: &str = "┃   │   │   │   │   │   │   │   │   │   │   │ 6 ┃ 1 C\n\
                          ┠┈┈┈┼┈┈┈┼┈┈┈┼┈┈┈┼┈┈┈┼┈┈┈┼┈┈┈┼┈┈┈┼┈┈┈┼┈┈┈┼┈┈┈┼┈┈┈┨\n\
                          ┃   │   │   │   │   │   │   │   │   │   │ 7 │   ┃ 2 C\n\
                          ┠┈┈┈┼┈┈┈┼┈┈┈┼┈┈┈┼┈┈┈┼┈┈┈┼┈┈┈┼┈┈┈┼┈┈┈┼┈┈┈┼┈┈┈┼┈┈┈┨\n\
                          ┃   │   │   │   │   │   │   │   │ 2 │ 0 │   │   ┃ 3 C\n\
                          ┠┈┈┈┼┈┈┈┼┈┈┈┼┈┈┈┼┈┈┈┼┈┈┈┼┈┈┈┼┈┈┈┼┈┈┈┼┈┈┈┼┈┈┈┼┈┈┈┨\n\
                          ┃   │   │   │   │   │   │   │ 1 │ 9 │   │   │   ┃ 4 C\n\
                          ┠┈┈┈┼┈┈┈┼┈┈┈┼┈┈┈┼┈┈┈┼┈┈┈┼┈┈┈┼┈┈┈┼┈┈┈┼┈┈┈┼┈┈┈┼┈┈┈┨\n\
                          ┃   │   │   │   │   │   │   │ 6 │   │   │   │   ┃ 5 C\n\
                          ┠┈┈┈┼┈┈┈┼┈┈┈┼┈┈┈┼┈┈┈┼┈┈┈┼┈┈┈┼┈┈┈┼┈┈┈┼┈┈┈┼┈┈┈┼┈┈┈┨\n\
                          ┃   │   │   │   │   │ 1 │ 4 │   │   │   │   │   ┃ 6 C\n\
                          ┠┈┈┈┼┈┈┈┼┈┈┈┼┈┈┈┼┈┈┈┼┈┈┈┼┈┈┈┼┈┈┈┼┈┈┈┼┈┈┈┼┈┈┈┼┈┈┈┨\n\
                          ┃   │   │   │   │   │ 7 │   │   │   │   │   │   ┃ 7 C\n\
                          ┠┈┈┈┼┈┈┈┼┈┈┈┼┈┈┈┼┈┈┈┼┈┈┈┼┈┈┈┼┈┈┈┼┈┈┈┼┈┈┈┼┈┈┈┼┈┈┈┨\n\
                          ┃   │   │   │ 2 │ 0 │   │   │   │   │   │   │   ┃ 8 C\n\
                          ┠┈┈┈┼┈┈┈┼┈┈┈┼┈┈┈┼┈┈┈┼┈┈┈┼┈┈┈┼┈┈┈┼┈┈┈┼┈┈┈┼┈┈┈┼┈┈┈┨\n\
                          ┃   │   │ 1 │ 9 │   │   │   │   │   │   │   │   ┃ 9 C\n\
                          ┠┈┈┈┼┈┈┈┼┈┈┈┼┈┈┈┼┈┈┈┼┈┈┈┼┈┈┈┼┈┈┈┼┈┈┈┼┈┈┈┼┈┈┈┼┈┈┈┨\n\
                          ┃   │   │ 6 │   │   │   │   │   │   │   │   │   ┃ 10 C\n\
                          ┠┈┈┈┼┈┈┈┼┈┈┈┼┈┈┈┼┈┈┈┼┈┈┈┼┈┈┈┼┈┈┈┼┈┈┈┼┈┈┈┼┈┈┈┼┈┈┈┨\n\
                          ┃   │ 8 │   │   │   │   │   │   │   │   │   │   ┃ 11 C\n\
                          ┠┈┈┈┼┈┈┈┼┈┈┈┼┈┈┈┼┈┈┈┼┈┈┈┼┈┈┈┼┈┈┈┼┈┈┈┼┈┈┈┼┈┈┈┼┈┈┈┨\n\
                          ┃ 0 │   │   │   │   │   │   │   │   │   │   │   ┃ 12 C\n\
                          ┣━━━┷━━━┷━━━┷━━━┷━━━┷━━━┷━━━┷━━━┷━━━┷━━━┷━━━┷━━━┫\n\
                          ┃Sub 1.                                         ┃\n\
                          ┣━━━┯━━━┯━━━┯━━━┯━━━┯━━━┯━━━┯━━━┯━━━┯━━━┯━━━┯━━━┫\n\
                          ┃   │   │   │   │   │   │   │   │   │   │   │ 6 ┃ 1 C\n\
                          ┠┈┈┈┼┈┈┈┼┈┈┈┼┈┈┈┼┈┈┈┼┈┈┈┼┈┈┈┼┈┈┈┼┈┈┈┼┈┈┈┼┈┈┈┼┈┈┈┨\n\
                          ┃   │   │   │   │   │   │   │   │   │   │ 7 │   ┃ 2 C\n\
                          ┠┈┈┈┼┈┈┈┼┈┈┈┼┈┈┈┼┈┈┈┼┈┈┈┼┈┈┈┼┈┈┈┼┈┈┈┼┈┈┈┼┈┈┈┼┈┈┈┨\n\
                          ┃   │   │   │   │   │   │   │   │   │ 0 │   │   ┃ 3 C\n\
                          ┠┈┈┈┼┈┈┈┼┈┈┈┼┈┈┈┼┈┈┈┼┈┈┈┼┈┈┈┼┈┈┈┼┈┈┈┼┈┈┈┼┈┈┈┼┈┈┈┨\n\
                          ┃   │   │   │   │   │   │   │ 1 │ 1 │   │   │   ┃ 4 C\n\
                          ┠┈┈┈┼┈┈┈┼┈┈┈┼┈┈┈┼┈┈┈┼┈┈┈┼┈┈┈┼┈┈┈┼┈┈┈┼┈┈┈┼┈┈┈┼┈┈┈┨\n\
                          ┃   │   │   │   │   │   │   │ 7 │   │   │   │   ┃ 5 C\n\
                          ┠┈┈┈┼┈┈┈┼┈┈┈┼┈┈┈┼┈┈┈┼┈┈┈┼┈┈┈┼┈┈┈┼┈┈┈┼┈┈┈┼┈┈┈┼┈┈┈┨\n\
                          ┃   │   │   │   │   │   │ 4 │   │   │   │   │   ┃ 6 C\n\
                          ┠┈┈┈┼┈┈┈┼┈┈┈┼┈┈┈┼┈┈┈┼┈┈┈┼┈┈┈┼┈┈┈┼┈┈┈┼┈┈┈┼┈┈┈┼┈┈┈┨\n\
                          ┃   │   │   │   │   │ 8 │   │   │   │   │   │   ┃ 7 C\n\
                          ┠┈┈┈┼┈┈┈┼┈┈┈┼┈┈┈┼┈┈┈┼┈┈┈┼┈┈┈┼┈┈┈┼┈┈┈┼┈┈┈┼┈┈┈┼┈┈┈┨\n\
                          ┃   │   │   │   │ 0 │   │   │   │   │   │   │   ┃ 8 C\n\
                          ┠┈┈┈┼┈┈┈┼┈┈┈┼┈┈┈┼┈┈┈┼┈┈┈┼┈┈┈┼┈┈┈┼┈┈┈┼┈┈┈┼┈┈┈┼┈┈┈┨\n\
                          ┃   │   │ 1 │ 1 │   │   │   │   │   │   │   │   ┃ 9 C\n\
                          ┠┈┈┈┼┈┈┈┼┈┈┈┼┈┈┈┼┈┈┈┼┈┈┈┼┈┈┈┼┈┈┈┼┈┈┈┼┈┈┈┼┈┈┈┼┈┈┈┨\n\
                          ┃   │   │ 7 │   │   │   │   │   │   │   │   │   ┃ 10 C\n\
                          ┠┈┈┈┼┈┈┈┼┈┈┈┼┈┈┈┼┈┈┈┼┈┈┈┼┈┈┈┼┈┈┈┼┈┈┈┼┈┈┈┼┈┈┈┼┈┈┈┨\n\
                          ┃   │ 8 │   │   │   │   │   │   │   │   │   │   ┃ 11 C\n\
                          ┠┈┈┈┼┈┈┈┼┈┈┈┼┈┈┈┼┈┈┈┼┈┈┈┼┈┈┈┼┈┈┈┼┈┈┈┼┈┈┈┼┈┈┈┼┈┈┈┨\n\
                          ┃ 0 │   │   │   │   │   │   │   │   │   │   │   ┃ 12 C\n\
                          ┣━━━┷━━━┷━━━┷━━━┷━━━┷━━━┷━━━┷━━━┷━━━┷━━━┷━━━┷━━━┫\n\
                          ┃Pro.                                           ┃\n\
                          ┣━━━┯━━━┯━━━┯━━━┯━━━┯━━━┯━━━┯━━━┯━━━┯━━━┯━━━┯━━━┫\n\
                          ┃ 0 │ 8 │ 8 │ 1 │ 0 │ 8 │ 4 │ 8 │ 1 │ 0 │ 7 │ 6 ┃ P\n";

    // Action
    long_sum(multiplicand, multiplier, &mut text);

    // Assert
    assert_eq!(expected, text);
}

#[test]
fn test_long_sum_with_eleven_digits_multiplicand_is_less() {
    // Arrange
    let multiplicand: usize = 357;
    let multiplier: usize = 246802468;
    let mut text: String = String::from("");
    let expected: &str = "┃   │   │   │   │   │   │   │   │   │   │   │ 6 ┃ 1 C\n\
                          ┠┈┈┈┼┈┈┈┼┈┈┈┼┈┈┈┼┈┈┈┼┈┈┈┼┈┈┈┼┈┈┈┼┈┈┈┼┈┈┈┼┈┈┈┼┈┈┈┨\n\
                          ┃   │   │   │   │   │   │   │   │   │   │ 7 │   ┃ 2 C\n\
                          ┠┈┈┈┼┈┈┈┼┈┈┈┼┈┈┈┼┈┈┈┼┈┈┈┼┈┈┈┼┈┈┈┼┈┈┈┼┈┈┈┼┈┈┈┼┈┈┈┨\n\
                          ┃   │   │   │   │   │   │   │   │ 2 │ 0 │   │   ┃ 3 C\n\
                          ┠┈┈┈┼┈┈┈┼┈┈┈┼┈┈┈┼┈┈┈┼┈┈┈┼┈┈┈┼┈┈┈┼┈┈┈┼┈┈┈┼┈┈┈┼┈┈┈┨\n\
                          ┃   │   │   │   │   │   │   │ 1 │ 9 │   │   │   ┃ 4 C\n\
                          ┠┈┈┈┼┈┈┈┼┈┈┈┼┈┈┈┼┈┈┈┼┈┈┈┼┈┈┈┼┈┈┈┼┈┈┈┼┈┈┈┼┈┈┈┼┈┈┈┨\n\
                          ┃   │   │   │   │   │   │   │ 6 │   │   │   │   ┃ 5 C\n\
                          ┠┈┈┈┼┈┈┈┼┈┈┈┼┈┈┈┼┈┈┈┼┈┈┈┼┈┈┈┼┈┈┈┼┈┈┈┼┈┈┈┼┈┈┈┼┈┈┈┨\n\
                          ┃   │   │   │   │   │ 1 │ 4 │   │   │   │   │   ┃ 6 C\n\
                          ┠┈┈┈┼┈┈┈┼┈┈┈┼┈┈┈┼┈┈┈┼┈┈┈┼┈┈┈┼┈┈┈┼┈┈┈┼┈┈┈┼┈┈┈┼┈┈┈┨\n\
                          ┃   │   │   │   │   │ 7 │   │   │   │   │   │   ┃ 7 C\n\
                          ┠┈┈┈┼┈┈┈┼┈┈┈┼┈┈┈┼┈┈┈┼┈┈┈┼┈┈┈┼┈┈┈┼┈┈┈┼┈┈┈┼┈┈┈┼┈┈┈┨\n\
                          ┃   │   │   │ 2 │ 0 │   │   │   │   │   │   │   ┃ 8 C\n\
                          ┠┈┈┈┼┈┈┈┼┈┈┈┼┈┈┈┼┈┈┈┼┈┈┈┼┈┈┈┼┈┈┈┼┈┈┈┼┈┈┈┼┈┈┈┼┈┈┈┨\n\
                          ┃   │   │ 1 │ 9 │   │   │   │   │   │   │   │   ┃ 9 C\n\
                          ┠┈┈┈┼┈┈┈┼┈┈┈┼┈┈┈┼┈┈┈┼┈┈┈┼┈┈┈┼┈┈┈┼┈┈┈┼┈┈┈┼┈┈┈┼┈┈┈┨\n\
                          ┃   │   │ 6 │   │   │   │   │   │   │   │   │   ┃ 10 C\n\
                          ┠┈┈┈┼┈┈┈┼┈┈┈┼┈┈┈┼┈┈┈┼┈┈┈┼┈┈┈┼┈┈┈┼┈┈┈┼┈┈┈┼┈┈┈┼┈┈┈┨\n\
                          ┃   │ 8 │   │   │   │   │   │   │   │   │   │   ┃ 11 C\n\
                          ┠┈┈┈┼┈┈┈┼┈┈┈┼┈┈┈┼┈┈┈┼┈┈┈┼┈┈┈┼┈┈┈┼┈┈┈┼┈┈┈┼┈┈┈┼┈┈┈┨\n\
                          ┃ 0 │   │   │   │   │   │   │   │   │   │   │   ┃ 12 C\n\
                          ┣━━━┷━━━┷━━━┷━━━┷━━━┷━━━┷━━━┷━━━┷━━━┷━━━┷━━━┷━━━┫\n\
                          ┃Sub 1.                                         ┃\n\
                          ┣━━━┯━━━┯━━━┯━━━┯━━━┯━━━┯━━━┯━━━┯━━━┯━━━┯━━━┯━━━┫\n\
                          ┃   │   │   │   │   │   │   │   │   │   │   │ 6 ┃ 1 C\n\
                          ┠┈┈┈┼┈┈┈┼┈┈┈┼┈┈┈┼┈┈┈┼┈┈┈┼┈┈┈┼┈┈┈┼┈┈┈┼┈┈┈┼┈┈┈┼┈┈┈┨\n\
                          ┃   │   │   │   │   │   │   │   │   │   │ 7 │   ┃ 2 C\n\
                          ┠┈┈┈┼┈┈┈┼┈┈┈┼┈┈┈┼┈┈┈┼┈┈┈┼┈┈┈┼┈┈┈┼┈┈┈┼┈┈┈┼┈┈┈┼┈┈┈┨\n\
                          ┃   │   │   │   │   │   │   │   │   │ 0 │   │   ┃ 3 C\n\
                          ┠┈┈┈┼┈┈┈┼┈┈┈┼┈┈┈┼┈┈┈┼┈┈┈┼┈┈┈┼┈┈┈┼┈┈┈┼┈┈┈┼┈┈┈┼┈┈┈┨\n\
                          ┃   │   │   │   │   │   │   │ 1 │ 1 │   │   │   ┃ 4 C\n\
                          ┠┈┈┈┼┈┈┈┼┈┈┈┼┈┈┈┼┈┈┈┼┈┈┈┼┈┈┈┼┈┈┈┼┈┈┈┼┈┈┈┼┈┈┈┼┈┈┈┨\n\
                          ┃   │   │   │   │   │   │   │ 7 │   │   │   │   ┃ 5 C\n\
                          ┠┈┈┈┼┈┈┈┼┈┈┈┼┈┈┈┼┈┈┈┼┈┈┈┼┈┈┈┼┈┈┈┼┈┈┈┼┈┈┈┼┈┈┈┼┈┈┈┨\n\
                          ┃   │   │   │   │   │   │ 4 │   │   │   │   │   ┃ 6 C\n\
                          ┠┈┈┈┼┈┈┈┼┈┈┈┼┈┈┈┼┈┈┈┼┈┈┈┼┈┈┈┼┈┈┈┼┈┈┈┼┈┈┈┼┈┈┈┼┈┈┈┨\n\
                          ┃   │   │   │   │   │ 8 │   │   │   │   │   │   ┃ 7 C\n\
                          ┠┈┈┈┼┈┈┈┼┈┈┈┼┈┈┈┼┈┈┈┼┈┈┈┼┈┈┈┼┈┈┈┼┈┈┈┼┈┈┈┼┈┈┈┼┈┈┈┨\n\
                          ┃   │   │   │   │ 0 │   │   │   │   │   │   │   ┃ 8 C\n\
                          ┠┈┈┈┼┈┈┈┼┈┈┈┼┈┈┈┼┈┈┈┼┈┈┈┼┈┈┈┼┈┈┈┼┈┈┈┼┈┈┈┼┈┈┈┼┈┈┈┨\n\
                          ┃   │   │ 1 │ 1 │   │   │   │   │   │   │   │   ┃ 9 C\n\
                          ┠┈┈┈┼┈┈┈┼┈┈┈┼┈┈┈┼┈┈┈┼┈┈┈┼┈┈┈┼┈┈┈┼┈┈┈┼┈┈┈┼┈┈┈┼┈┈┈┨\n\
                          ┃   │   │ 7 │   │   │   │   │   │   │   │   │   ┃ 10 C\n\
                          ┠┈┈┈┼┈┈┈┼┈┈┈┼┈┈┈┼┈┈┈┼┈┈┈┼┈┈┈┼┈┈┈┼┈┈┈┼┈┈┈┼┈┈┈┼┈┈┈┨\n\
                          ┃   │ 8 │   │   │   │   │   │   │   │   │   │   ┃ 11 C\n\
                          ┠┈┈┈┼┈┈┈┼┈┈┈┼┈┈┈┼┈┈┈┼┈┈┈┼┈┈┈┼┈┈┈┼┈┈┈┼┈┈┈┼┈┈┈┼┈┈┈┨\n\
                          ┃ 0 │   │   │   │   │   │   │   │   │   │   │   ┃ 12 C\n\
                          ┣━━━┷━━━┷━━━┷━━━┷━━━┷━━━┷━━━┷━━━┷━━━┷━━━┷━━━┷━━━┫\n\
                          ┃Pro.                                           ┃\n\
                          ┣━━━┯━━━┯━━━┯━━━┯━━━┯━━━┯━━━┯━━━┯━━━┯━━━┯━━━┯━━━┫\n\
                          ┃ 0 │ 8 │ 8 │ 1 │ 0 │ 8 │ 4 │ 8 │ 1 │ 0 │ 7 │ 6 ┃ P\n";

    // Action
    long_sum(multiplicand, multiplier, &mut text);

    // Assert
    assert_eq!(expected, text);
}

#[test]
fn test_author_information() {
    // Arrange
    let mut text: String = String::from("");
    let expected: &str = "\n\
                          ---\n\
                          Author: Israel Roldan\n\
                          E-mail: israel.alberto.rv@gmail.com\n\
                          License: GPL-3.0\n\
                          Project: https://github.com/airvzxf/long-multiplication-calculator\n";

    // Action
    author(&mut text);

    // Assert
    assert_eq!(expected, text);
}
