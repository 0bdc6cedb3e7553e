use life::field::Field;
use life::life::Life;

fn live_count(f: &Field) -> usize {
    let mut n = 0;
    for y in 0..f.height() {
        for x in 0..f.width() {
            if f.is_alive(x as i32, y as i32) {
                n += 1;
            }
        }
    }
    n
}

fn live_set(f: &Field) -> Vec<(u16, u16)> {
    let mut cells = Vec::new();
    for y in 0..f.height() {
        for x in 0..f.width() {
            if f.is_alive(x as i32, y as i32) {
                cells.push((x, y));
            }
        }
    }
    cells
}

#[test]
fn fresh_field_is_all_dead() {
    for (w, h) in [(1u16, 1u16), (1, 7), (5, 3), (40, 15)] {
        let f = Field::new(w, h);
        assert_eq!(f.width(), w);
        assert_eq!(f.height(), h);
        for y in 0..h {
            for x in 0..w {
                assert!(!f.is_alive(x as i32, y as i32));
            }
        }
    }
}

#[test]
fn reads_wrap_around_both_edges() {
    let mut f = Field::new(5, 3);
    assert!(f.set(4, 0, true).is_ok());
    assert!(f.set(0, 2, true).is_ok());
    assert!(f.is_alive(-1, 0));
    assert_eq!(f.is_alive(-1, 0), f.is_alive(4, 0));
    assert!(f.is_alive(9, 3));
    assert!(f.is_alive(-6, -3));
    assert!(f.is_alive(0, -1));
    assert!(f.is_alive(5, 2));
    assert!(f.is_alive(-5, 5));
    assert!(!f.is_alive(5, 0));
    assert!(!f.is_alive(-2, 0));
    for x in -12i32..12 {
        for y in -7i32..7 {
            assert_eq!(f.is_alive(x, y), f.is_alive(x.rem_euclid(5), y.rem_euclid(3)));
        }
    }
}

#[test]
fn set_updates_one_cell() {
    let mut f = Field::new(4, 4);
    assert_eq!(f.set(2, 3, true), Ok(()));
    assert_eq!(live_set(&f), vec![(2, 3)]);
    assert_eq!(f.set(2, 3, false), Ok(()));
    assert_eq!(live_count(&f), 0);
}

#[test]
fn set_out_of_bounds_fails_and_changes_nothing() {
    let mut f = Field::new(3, 2);
    f.set(1, 1, true).unwrap();
    assert_eq!(f.set(3, 0, true), Err("coordinates are out of bounds"));
    assert!(f.set(0, 2, true).is_err());
    assert!(f.set(3, 2, true).is_err());
    assert!(f.set(u16::MAX, 0, false).is_err());
    assert!(f.set(1, 1, false).is_ok());
    assert!(f.set(7, 1, true).is_err());
    assert_eq!(live_count(&f), 0);
    assert_eq!(f.width(), 3);
    assert_eq!(f.height(), 2);
}

#[test]
fn rule_birth_on_three() {
    let mut f = Field::new(6, 6);
    f.set(1, 1, true).unwrap();
    f.set(3, 1, true).unwrap();
    f.set(2, 3, true).unwrap();
    assert!(!f.is_alive(2, 2));
    assert!(f.next(2, 2));
}

#[test]
fn rule_survival_on_two_only_if_alive() {
    let mut f = Field::new(6, 6);
    f.set(1, 1, true).unwrap();
    f.set(3, 3, true).unwrap();
    assert!(!f.next(2, 2));
    f.set(2, 2, true).unwrap();
    assert!(f.next(2, 2));
}

#[test]
fn rule_death_by_loneliness_and_crowding() {
    let mut f = Field::new(6, 6);
    f.set(2, 2, true).unwrap();
    f.set(1, 1, true).unwrap();
    assert!(!f.next(2, 2));
    f.set(3, 1, true).unwrap();
    f.set(1, 3, true).unwrap();
    f.set(3, 3, true).unwrap();
    assert!(!f.next(2, 2));
    assert!(!f.next(4, 4));
}

#[test]
fn rule_counts_neighbors_across_the_edges() {
    let mut f = Field::new(5, 5);
    f.set(4, 4, true).unwrap();
    f.set(4, 0, true).unwrap();
    f.set(0, 4, true).unwrap();
    assert!(f.next(0, 0));
    assert!(f.next(-5, 5));
}

#[test]
fn bar_on_three_by_three_torus_fills_then_empties() {
    let mut life = Life::seeded(3, 3, &vec![(0, 1), (1, 1), (2, 1)]);
    life.step();
    assert_eq!(live_count(life.field()), 9);
    life.step();
    assert_eq!(live_count(life.field()), 0);
}

#[test]
fn block_is_still() {
    let block = vec![(1, 1), (2, 1), (1, 2), (2, 2)];
    let mut life = Life::seeded(4, 4, &block);
    for _ in 0..3 {
        life.step();
        assert_eq!(live_set(life.field()), block);
    }
    let block = vec![(2, 3), (3, 3), (2, 4), (3, 4)];
    let mut life = Life::seeded(7, 6, &block);
    life.step();
    assert_eq!(live_set(life.field()), block);
}

#[test]
fn blinker_has_period_two() {
    let bar = vec![(1, 2), (2, 2), (3, 2)];
    let mut life = Life::seeded(5, 5, &bar);
    life.step();
    assert_eq!(live_set(life.field()), vec![(2, 1), (2, 2), (2, 3)]);
    life.step();
    assert_eq!(live_set(life.field()), bar);
}

#[test]
fn render_draws_rows_top_first() {
    let life = Life::seeded(4, 3, &vec![(0, 0), (3, 0), (1, 2)]);
    assert_eq!(life.render(), "*  *\n    \n *  \n");
    assert_eq!(life.render(), life.render());
}

#[test]
fn render_has_height_lines_of_width() {
    let life = Life::new(40, 15);
    let text = life.render();
    let lines: Vec<&str> = text.split_terminator('\n').collect();
    assert_eq!(lines.len(), 15);
    assert!(text.ends_with('\n'));
    for line in lines {
        assert_eq!(line.chars().count(), 40);
        assert!(line.chars().all(|c| c == '*' || c == ' '));
    }
    let single = Life::new(1, 1).render();
    assert_eq!(single, " \n");
}

#[test]
fn render_after_step_shows_new_generation() {
    let mut life = Life::seeded(5, 5, &vec![(1, 2), (2, 2), (3, 2)]);
    assert_eq!(life.render(), "     \n     \n *** \n     \n     \n");
    life.step();
    assert_eq!(life.render(), "     \n  *  \n  *  \n  *  \n     \n");
}

#[test]
fn random_seeding_stays_within_a_quarter() {
    for (w, h) in [(1u16, 1u16), (2, 2), (3, 5), (40, 15), (100, 100)] {
        let life = Life::new(w, h);
        assert_eq!(life.width(), w);
        assert_eq!(life.height(), h);
        let quarter = (w as usize * h as usize) / 4;
        assert!(live_count(life.field()) <= quarter);
    }
    assert_eq!(live_count(Life::new(1, 3).field()), 0);
}

#[test]
fn random_seeding_makes_some_cell_alive() {
    let life = Life::new(2, 2);
    assert_eq!(live_count(life.field()), 1);
}

#[test]
fn repeated_picks_collapse() {
    let life = Life::seeded(3, 3, &vec![(1, 1), (1, 1), (2, 0), (1, 1)]);
    assert_eq!(live_set(life.field()), vec![(2, 0), (1, 1)]);
}

#[test]
fn seeded_without_picks_is_empty() {
    let life = Life::seeded(6, 2, &Vec::new());
    assert_eq!(live_count(life.field()), 0);
    assert_eq!(life.render(), "      \n      \n");
}

#[test]
fn large_grid_steps() {
    let mut life = Life::new(u16::MAX, 2);
    life.step();
    assert_eq!(life.width(), u16::MAX);
    assert_eq!(life.render().len(), 2 * (u16::MAX as usize + 1));
}

#[test]
fn set_past_either_edge_reports_out_of_bounds() {
    let mut f = Field::new(5, 3);
    assert_eq!(f.set(5, 0, true), Err("coordinates are out of bounds"));
    assert_eq!(f.set(0, 3, true), Err("coordinates are out of bounds"));
    for a in -6i32..7 {
        for b in -4i32..5 {
            assert!(!f.is_alive(a, b));
        }
    }
}
