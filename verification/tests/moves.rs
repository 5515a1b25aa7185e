use squared_squares::squares::{Config, Plate};

fn tables(v: i32) -> [i32; 151] {
    [v; 151]
}

fn skyline(c: &Config) -> Vec<(i32, i32)> {
    c.plates.iter().map(|p| (p.height, p.width)).collect()
}

fn config_with(size: i32, plates: &[(i32, i32)]) -> Config {
    let mut c = Config::new(false, size, tables(255), tables(255));
    c.plates = plates.iter().map(|&(h, w)| Plate { height: h, width: w }).collect();
    c
}

#[test]
fn new_config_is_an_empty_well() {
    let c = Config::new(true, 10, tables(3), tables(4));
    assert_eq!(skyline(&c), vec![(11, 1), (0, 10), (11, 1)]);
    assert!(c.squares.iter().all(|&b| !b));
    assert_eq!(c.size, 10);
    assert_eq!(c.net_squares, 0);
    assert_eq!(c.first_corner, 0);
    assert!(c.coordinated);
    assert_eq!(c.max_glass[7], 3);
    assert_eq!(c.max_square_for_glass[7], 4);
    assert_eq!(c.num_plates(), 3);
    assert!(c.found.is_empty());
}

#[test]
fn can_use_reads_the_marks() {
    let mut c = Config::new(false, 10, tables(0), tables(0));
    assert!(c.can_use(3));
    c.squares[3] = true;
    assert!(!c.can_use(3));
}

#[test]
fn add_square_quick_splits_the_plate_and_remove_square_undoes_it() {
    let mut c = Config::new(false, 10, tables(0), tables(0));
    c.add_square_quick(4, 1);
    assert_eq!(skyline(&c), vec![(11, 1), (4, 4), (0, 6), (11, 1)]);
    assert!(c.squares[4]);
    assert_eq!(c.order(), 1);
    c.remove_square(1);
    assert_eq!(skyline(&c), vec![(11, 1), (0, 10), (11, 1)]);
    assert!(!c.squares[4]);
    assert_eq!(c.order(), 0);
}

#[test]
fn add_square_quick_right_and_remove_square_right_undo_each_other() {
    let mut c = Config::new(false, 10, tables(0), tables(0));
    c.add_square_quick_right(3, 1);
    assert_eq!(skyline(&c), vec![(11, 1), (0, 7), (3, 3), (11, 1)]);
    assert!(c.squares[3]);
    c.remove_square_right(2);
    assert_eq!(skyline(&c), vec![(11, 1), (0, 10), (11, 1)]);
    assert!(!c.squares[3]);
}

#[test]
fn horizontal_extension_fills_the_step_and_reverses() {
    let mut c = config_with(10, &[(11, 1), (5, 5), (2, 5), (11, 1)]);
    c.horizontal_extension(2);
    assert_eq!(skyline(&c), vec![(11, 1), (5, 8), (2, 2), (11, 1)]);
    assert!(c.squares[3]);
    c.reverse_horizontal_extension(2);
    assert_eq!(skyline(&c), vec![(11, 1), (5, 5), (2, 5), (11, 1)]);
    assert!(!c.squares[3]);
}

#[test]
fn vertical_extension_without_merge() {
    let before = [(11, 1), (7, 2), (2, 3), (9, 5), (11, 1)];
    let mut c = config_with(10, &before);
    let id = c.vertical_extension(2);
    assert_eq!(id, 2);
    assert_eq!(skyline(&c), vec![(11, 1), (7, 2), (5, 3), (9, 5), (11, 1)]);
    assert!(c.squares[3]);
    c.reverse_vertical_extension(id, 3, 0);
    assert_eq!(skyline(&c), before.to_vec());
    assert!(!c.squares[3]);
}

#[test]
fn vertical_extension_merging_right() {
    let before = [(11, 1), (7, 2), (2, 3), (5, 5), (11, 1)];
    let mut c = config_with(10, &before);
    let id = c.vertical_extension(2);
    assert_eq!(id, 2);
    assert_eq!(skyline(&c), vec![(11, 1), (7, 2), (5, 8), (11, 1)]);
    c.reverse_vertical_extension(id, 3, 0);
    assert_eq!(skyline(&c), before.to_vec());
}

#[test]
fn vertical_extension_merging_left() {
    let before = [(11, 1), (5, 2), (2, 3), (9, 5), (11, 1)];
    let mut c = config_with(10, &before);
    let id = c.vertical_extension(2);
    assert_eq!(id, 1);
    assert_eq!(skyline(&c), vec![(11, 1), (5, 5), (9, 5), (11, 1)]);
    c.reverse_vertical_extension(id, 3, 2);
    assert_eq!(skyline(&c), before.to_vec());
}

#[test]
fn vertical_extension_merging_both_sides() {
    let before = [(11, 1), (5, 2), (2, 3), (5, 5), (11, 1)];
    let mut c = config_with(10, &before);
    let id = c.vertical_extension(2);
    assert_eq!(id, 1);
    assert_eq!(skyline(&c), vec![(11, 1), (5, 10), (11, 1)]);
    assert_eq!(c.net_squares, 0);
    c.reverse_vertical_extension(id, 3, 2);
    assert_eq!(skyline(&c), before.to_vec());
    assert!(!c.squares[3]);
}

#[test]
fn area_grows_by_the_square_placed() {
    fn area(c: &Config) -> i64 {
        c.plates.iter().map(|p| p.height as i64 * p.width as i64).sum()
    }
    fn width(c: &Config) -> i64 {
        c.plates.iter().map(|p| p.width as i64).sum()
    }
    let mut c = config_with(10, &[(11, 1), (5, 2), (2, 3), (5, 5), (11, 1)]);
    let (a0, w0) = (area(&c), width(&c));
    c.vertical_extension(2);
    assert_eq!(area(&c), a0 + 9);
    assert_eq!(width(&c), w0);

    let mut c = config_with(10, &[(11, 1), (5, 5), (2, 5), (11, 1)]);
    let (a0, w0) = (area(&c), width(&c));
    c.horizontal_extension(2);
    assert_eq!(area(&c), a0 + 9);
    assert_eq!(width(&c), w0);

    let mut c = Config::new(false, 10, tables(0), tables(0));
    let (a0, w0) = (area(&c), width(&c));
    c.add_square_quick(6, 1);
    assert_eq!(area(&c), a0 + 36);
    assert_eq!(width(&c), w0);
    c.add_square_quick_right(2, 2);
    assert_eq!(area(&c), a0 + 40);
    assert_eq!(width(&c), w0);
}

#[test]
fn snapshot_copies_everything() {
    let mut c = Config::new(true, 12, tables(1), tables(2));
    c.add_square_quick(5, 1);
    c.found.push("x".to_string());
    c.first_corner = 5;
    let d = c.snapshot();
    assert_eq!(skyline(&d), skyline(&c));
    assert_eq!(d.squares, c.squares);
    assert_eq!(d.size, 12);
    assert_eq!(d.first_corner, 5);
    assert!(d.coordinated);
    assert_eq!(d.found, vec!["x".to_string()]);
}

#[test]
fn vertical_extension_merges_with_a_neighbour_of_any_width() {
    let mut c = config_with(10, &[(11, 1), (3, -2), (1, 2), (3, 4), (11, 1)]);
    let id = c.vertical_extension(2);
    assert_eq!(id, 1);
    assert_eq!(skyline(&c), vec![(11, 1), (3, 4), (11, 1)]);
    assert!(c.squares[2]);
    let total: i32 = c.plates.iter().map(|p| p.width).sum();
    assert_eq!(total, 6);
}
