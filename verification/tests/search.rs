use squared_squares::coordinator::Message;
use squared_squares::exhaustive::{
    decompose, double_nest_init, is_unfillable_glass, min_of, next_plane_id, next_plate, solve_cc,
};
use squared_squares::glasses::{
    decompose_glasses, max_square_for_glass_table, next_plate_for_glasses, solve_glass,
    solve_glasses,
};
use squared_squares::squares::{Config, Plate};

fn tables(v: i32) -> [i32; 151] {
    [v; 151]
}

fn skyline(c: &Config) -> Vec<(i32, i32)> {
    c.plates.iter().map(|p| (p.height, p.width)).collect()
}

fn config_with(size: i32, plates: &[(i32, i32)]) -> Config {
    let mut c = Config::new(false, size, tables(255), tables(255));
    c.plates = plates.iter().map(|&(h, w)| Plate { height: h, width: w }).collect();
    c
}

#[test]
fn min_of_picks_the_smaller() {
    assert_eq!(min_of(3, -2), -2);
    assert_eq!(min_of(4, 9), 4);
    assert_eq!(min_of(7, 7), 7);
}

#[test]
fn unfillable_glass_compares_depth_with_the_table() {
    let mut c = Config::new(false, 20, tables(5), tables(0));
    assert!(!is_unfillable_glass(&c, 1, 5, 4, 9));
    assert!(is_unfillable_glass(&c, 1, 6, 4, 9));
    assert!(!is_unfillable_glass(&c, 1, 0, 4, 9));
    c.squares[4] = true;
    assert!(is_unfillable_glass(&c, 1, 2, 4, 9));
    assert!(!is_unfillable_glass(&c, 1, 1, 4, 9));
    assert!(!is_unfillable_glass(&c, 1, -3, 4, 9));
}

#[test]
fn next_plane_id_finds_the_narrowest_lowest_plate() {
    let c = config_with(20, &[(21, 1), (3, 5), (8, 2), (4, 3), (9, 10), (21, 1)]);
    assert_eq!(next_plane_id(&c), 3);
    let c = config_with(20, &[(21, 1), (3, 4), (8, 2), (4, 4), (9, 10), (21, 1)]);
    assert_eq!(next_plane_id(&c), 1);
    let c = config_with(20, &[(21, 1), (3, 4), (21, 1)]);
    assert_eq!(next_plane_id(&c), 1);
    let c = config_with(2, &[(3, 1), (3, 1), (3, 1)]);
    assert_eq!(next_plane_id(&c), 0);
}

#[test]
fn next_plate_reports_a_finished_square() {
    let mut c = config_with(4, &[(5, 1), (4, 4), (5, 1)]);
    c.squares[4] = true;
    next_plate(&mut c);
    assert_eq!(c.found, vec!["S, W: 4, H: 4, ORDER: 1, SET: {4}".to_string()]);
    assert_eq!(skyline(&c), vec![(5, 1), (4, 4), (5, 1)]);
}

#[test]
fn decompose_finds_the_trivial_square_and_restores_the_skyline() {
    let mut c = Config::new(false, 4, tables(255), tables(255));
    decompose(&mut c, 1);
    assert!(c.found.contains(&"S, W: 4, H: 4, ORDER: 1, SET: {4}".to_string()));
    assert_eq!(skyline(&c), vec![(5, 1), (0, 4), (5, 1)]);
    assert!(c.squares.iter().all(|&b| !b));
    assert_eq!(c.size, 4);
    assert!(c.net_squares >= 1);
}

#[test]
fn decompose_skips_an_unfillable_glass() {
    let mut c = Config::new(false, 4, tables(0), tables(255));
    c.plates = vec![
        Plate { height: 5, width: 1 },
        Plate { height: 3, width: 1 },
        Plate { height: 1, width: 3 },
        Plate { height: 5, width: 1 },
    ];
    decompose(&mut c, 2);
    assert_eq!(c.net_squares, 0);
    assert!(c.found.is_empty());
}

#[test]
fn decompose_leaves_a_larger_search_as_it_found_it() {
    let mut c = Config::new(false, 9, tables(255), tables(255));
    c.add_square_quick(4, 1);
    let before = skyline(&c);
    let marks = c.squares;
    decompose(&mut c, 2);
    assert_eq!(skyline(&c), before);
    assert_eq!(c.squares, marks);
    assert_eq!(c.size, 9);
    assert!(c.net_squares > 0);
    for line in &c.found {
        assert!(line.starts_with("R, W: 9") || line.starts_with("S, W: 9"));
    }
}

#[test]
fn double_nest_init_hands_out_valid_units() {
    let mut c = Config::new(true, 30, tables(255), tables(255));
    let units = double_nest_init(8, &mut c);
    assert_eq!(units.len(), 13);
    assert_eq!(skyline(&c), vec![(31, 1), (0, 30), (31, 1)]);
    assert!(c.squares.iter().all(|&b| !b));
    assert_eq!(c.first_corner, 8);
    assert_eq!(c.net_squares, 2);
    let mut at_ground = 0;
    for m in &units {
        match m {
            Message::WorkUnit((u, pid)) => {
                assert_eq!(u.first_corner, 8);
                assert_eq!(u.order(), 2);
                assert_eq!((u.plates[1].height, u.plates[1].width), (8, 8));
                assert!(u.squares[8]);
                let p = *pid;
                assert!(u.plates[p - 1].height > u.plates[p].height);
                assert!(u.plates[p + 1].height > u.plates[p].height);
                if p == 3 {
                    at_ground += 1;
                }
            }
            Message::ThreadDeath(..) => panic!("not a work unit"),
        }
    }
    assert_eq!(at_ground, 3);
}

#[test]
fn solve_cc_narrows_rectangles_for_larger_second_squares() {
    let units = solve_cc(8, 30, tables(255), tables(255));
    let narrow: Vec<i32> = units
        .iter()
        .filter_map(|m| match m {
            Message::WorkUnit((u, _)) if u.size < 30 => Some(u.size),
            _ => None,
        })
        .collect();
    assert_eq!(narrow, vec![17, 18, 19, 20, 21]);
}

#[test]
fn double_nest_init_prunes_by_the_glass_table() {
    let units = solve_cc(8, 30, tables(0), tables(255));
    assert!(units.is_empty());
}

#[test]
fn solve_glasses_small_widths() {
    let t = solve_glasses(3);
    assert_eq!(t[0], 0);
    assert_eq!(t[1], 1);
    assert_eq!(t[2], 2);
    for k in 3..151 {
        assert_eq!(t[k], 151);
    }
}

#[test]
fn solve_glasses_with_no_width() {
    let t = solve_glasses(0);
    assert!(t.iter().all(|&x| x == 151));
}

#[test]
fn solve_glass_touches_only_its_width() {
    let mut t = [7; 151];
    solve_glass(1, &mut t);
    for k in 0..151 {
        assert_eq!(t[k], 7);
    }
    let mut t = [0; 151];
    solve_glass(2, &mut t);
    assert_eq!(t[2], 2);
    assert_eq!(t[1], 0);
}

#[test]
fn decompose_glasses_records_the_level_and_restores() {
    let mut c = Config::new(false, 151, tables(0), tables(0));
    c.plates[1].width = 1;
    c.plates[2].width = 150;
    let mut t = [0; 151];
    decompose_glasses(&mut c, 1, 1, &mut t);
    assert_eq!(t[1], 1);
    assert_eq!(skyline(&c), vec![(152, 1), (0, 1), (152, 150)]);
    let mut t = [0; 151];
    next_plate_for_glasses(&mut c, 1, &mut t);
    assert_eq!(t[1], 1);
}

#[test]
fn max_square_for_glass_takes_the_largest_fitting_square() {
    let mut g = [0; 151];
    for k in 0..151 {
        g[k] = k as i32;
    }
    let t = max_square_for_glass_table(&g);
    assert_eq!(t[0], 0);
    assert_eq!(t[1], 0);
    assert_eq!(t[2], 1);
    assert_eq!(t[7], 3);
    assert_eq!(t[150], 75);
    let t = max_square_for_glass_table(&[0; 151]);
    assert!(t.iter().all(|&x| x == 0));
}

fn nearly_finished_rectangle() -> Config {
    let mut c = config_with(33, &[(34, 1), (32, 24), (23, 9), (34, 1)]);
    for s in [1, 4, 7, 8, 10, 14, 15, 18] {
        c.squares[s] = true;
    }
    c
}

fn area_of_report(line: &str) -> (i64, i64, i64) {
    let w: i64 = line.split("W: ").nth(1).unwrap().split(',').next().unwrap().parse().unwrap();
    let h: i64 = line.split("H: ").nth(1).unwrap().split(',').next().unwrap().parse().unwrap();
    let set = line.split("SET: {").nth(1).unwrap().trim_end_matches('}');
    let sum: i64 = set.split(", ").map(|x| x.parse::<i64>().unwrap()).map(|x| x * x).sum();
    (w, h, sum)
}

#[test]
fn next_plate_finishes_the_smallest_perfect_rectangle() {
    let mut c = nearly_finished_rectangle();
    assert!(squared_squares::checks::ready_to_decompose(&c, 2));
    let before = skyline(&c);
    next_plate(&mut c);
    assert_eq!(
        c.found[0],
        "R, W: 33, H: 32, ORDER: 9, SET: {1, 4, 7, 8, 9, 10, 14, 15, 18}"
    );
    for line in &c.found {
        let (w, h, sum) = area_of_report(line);
        assert_eq!(w * h, sum);
    }
    assert_eq!(skyline(&c), before);
    assert_eq!(c.order(), 8);
}

#[test]
fn ready_to_decompose_rejects_broken_configurations() {
    let c = nearly_finished_rectangle();
    assert!(!squared_squares::checks::ready_to_decompose(&c, 1));
    let mut d = nearly_finished_rectangle();
    d.squares[9] = true;
    assert!(squared_squares::checks::ready_to_decompose(&d, 2));
    let mut e = nearly_finished_rectangle();
    e.plates[2].height = 32;
    assert!(!squared_squares::checks::ready_to_decompose(&e, 2));
    let mut f = nearly_finished_rectangle();
    f.max_glass[3] = -1;
    assert!(squared_squares::checks::ready_to_decompose(&f, 2));
    f.max_glass[3] = i32::MIN;
    assert!(!squared_squares::checks::ready_to_decompose(&f, 2));
    f.max_glass[3] = 1000;
    f.max_square_for_glass[3] = i32::MAX;
    assert!(!squared_squares::checks::ready_to_decompose(&f, 2));
    let mut g = nearly_finished_rectangle();
    assert!(squared_squares::checks::try_decompose(&mut g, 2));
    let mut h = nearly_finished_rectangle();
    h.size = 200;
    assert!(!squared_squares::checks::try_decompose(&mut h, 2));
    assert_eq!(h.net_squares, 0);
}

#[test]
fn square_count_stops_at_its_largest_value() {
    let mut c = Config::new(false, 4, tables(255), tables(255));
    c.net_squares = u128::MAX - 1;
    decompose(&mut c, 1);
    assert_eq!(c.net_squares, u128::MAX);
    assert_eq!(skyline(&c), vec![(5, 1), (0, 4), (5, 1)]);
    let mut g = Config::new(false, 151, tables(0), tables(0));
    g.plates[1].width = 3;
    g.plates[2].width = 148;
    g.net_squares = u128::MAX;
    let mut t = [0; 151];
    decompose_glasses(&mut g, 1, 3, &mut t);
    assert_eq!(g.net_squares, u128::MAX);
    assert_eq!(skyline(&g), vec![(152, 1), (0, 3), (152, 148)]);
}

#[test]
fn decompose_with_large_tables_reports_the_single_square_once() {
    let mut c = Config::new(false, 2, tables(1000), tables(0));
    decompose(&mut c, 1);
    assert_eq!(c.found, vec!["S, W: 2, H: 2, ORDER: 1, SET: {2}".to_string()]);
    assert_eq!(c.net_squares, 1);
    assert_eq!(skyline(&c), vec![(3, 1), (0, 2), (3, 1)]);
    assert_eq!(c.order(), 0);
}

#[test]
fn decompose_glasses_reaches_level_two_with_three_squares() {
    let mut c = Config::new(false, 4, tables(0), tables(0));
    c.plates[1].width = 2;
    c.plates[2].width = 2;
    let mut m = [0; 151];
    decompose_glasses(&mut c, 1, 2, &mut m);
    assert_eq!(m[2], 2);
    assert!(m.iter().enumerate().all(|(j, &v)| j == 2 || v == 0));
    assert_eq!(c.net_squares, 3);
    assert_eq!(skyline(&c), vec![(5, 1), (0, 2), (5, 2)]);
    assert_eq!(c.order(), 0);
}

#[test]
fn work_units_hold_the_two_squares_on_the_ground() {
    let units = solve_cc(8, 30, tables(1000), tables(255));
    let mut seen = Vec::new();
    for m in &units {
        if let Message::WorkUnit((u, pid)) = m {
            let s2 = u.plates[2].width;
            assert_eq!(u.plates[2].height, s2);
            let used: Vec<usize> = (0..256).filter(|&i| u.squares[i]).collect();
            let mut expected = vec![8usize, s2 as usize];
            expected.sort();
            assert_eq!(used, expected);
            if u.size < 30 {
                assert_eq!(u.size, 8 + s2);
                assert_eq!(
                    skyline(u),
                    vec![(8 + s2 + 1, 1), (8, 8), (s2, s2), (8 + s2 + 1, 1)]
                );
            } else {
                assert_eq!(skyline(u), vec![(31, 1), (8, 8), (s2, s2), (0, 22 - s2), (31, 1)]);
            }
            assert_eq!(*pid == 3, s2 < 8);
            seen.push((*pid, u.size, s2));
        }
    }
    assert!(seen.contains(&(1, 17, 9)));
    assert!(seen.contains(&(3, 30, 5)));
    assert!(units.len() > 0);
}

#[test]
fn double_nest_init_with_a_first_corner_wider_than_the_rectangle_hands_out_nothing() {
    let mut c = Config::new(true, 30, tables(255), tables(255));
    let units = double_nest_init(200, &mut c);
    assert!(units.is_empty());
    assert_eq!(skyline(&c), vec![(31, 1), (0, 30), (31, 1)]);
    assert!(c.squares.iter().all(|&b| !b));
    assert_eq!(c.first_corner, 200);
}
