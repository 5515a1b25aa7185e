use squared_squares::squares::Config;
use squared_squares::text::{int_to_string, push_decimal, push_int};

fn empty(size: i32) -> Config {
    Config::new(false, size, [0; 151], [0; 151])
}

#[test]
fn decimal_text_of_integers() {
    assert_eq!(int_to_string(0), "0");
    assert_eq!(int_to_string(7), "7");
    assert_eq!(int_to_string(112), "112");
    assert_eq!(int_to_string(-45), "-45");
    assert_eq!(int_to_string(i32::MIN), "-2147483648");
    assert_eq!(int_to_string(i32::MAX), "2147483647");
    let mut s = String::from("n=");
    push_decimal(&mut s, 1000);
    assert_eq!(s, "n=1000");
    push_int(&mut s, -3);
    assert_eq!(s, "n=1000-3");
}

#[test]
fn squares_to_string_lists_used_sizes_in_order() {
    let mut c = empty(10);
    assert_eq!(c.squares_to_string(), "{}");
    c.squares[9] = true;
    c.squares[2] = true;
    c.squares[5] = true;
    assert_eq!(c.squares_to_string(), "{2, 5, 9}");
    c.squares[0] = true;
    c.squares[255] = true;
    assert_eq!(c.squares_to_string(), "{0, 2, 5, 9, 255}");
}

#[test]
fn order_counts_used_sizes() {
    let mut c = empty(10);
    assert_eq!(c.order(), 0);
    c.squares[1] = true;
    c.squares[100] = true;
    c.squares[255] = true;
    assert_eq!(c.order(), 3);
}

#[test]
fn report_lines_match_the_output_format() {
    let mut c = empty(112);
    for s in [2, 4, 6, 7, 8, 9, 11, 15, 16, 17, 18, 19, 24, 25, 27, 29, 33, 35, 37, 42, 50] {
        c.squares[s] = true;
    }
    assert_eq!(
        c.report(true, 112),
        "S, W: 112, H: 112, ORDER: 21, SET: {2, 4, 6, 7, 8, 9, 11, 15, 16, 17, 18, 19, 24, 25, 27, 29, 33, 35, 37, 42, 50}"
    );
    let mut r = empty(33);
    for s in [1, 4, 7, 8, 9, 10, 14, 15, 18] {
        r.squares[s] = true;
    }
    assert_eq!(r.report(false, 32), "R, W: 33, H: 32, ORDER: 9, SET: {1, 4, 7, 8, 9, 10, 14, 15, 18}");
}

#[test]
fn describe_shows_size_squares_and_plates() {
    let mut c = empty(10);
    assert_eq!(c.describe(), "Config: size: 10, squares: \"{}\", plates: [(1, 11), (10, 0), (1, 11)]");
    c.add_square_quick(4, 1);
    assert_eq!(
        c.describe(),
        "Config: size: 10, squares: \"{4}\", plates: [(1, 11), (4, 4), (6, 0), (1, 11)]"
    );
    assert_eq!(c.plates[2].describe(), "(6, 0)");
}

