use digital_rain::config::{Config, DEFAULT_TRAIL_DENSITY};
use digital_rain::frame::{render, Cell};
use digital_rain::gradient::{clip, compute_step_size, interpolate, Color};
use digital_rain::simulation::{tick, State};
use digital_rain::trail::{Trail, MAX_LEN, MAX_SPEED};
use rand::rngs::StdRng;
use rand::SeedableRng;

fn rng(seed: u64) -> StdRng {
    StdRng::seed_from_u64(seed)
}

fn color(r: u8, g: u8, b: u8) -> Color {
    Color { r, g, b }
}

fn state_with(term_size: (u16, u16), density: u32, trails: Vec<Trail>) -> State {
    State {
        trails,
        term_size,
        config: Config::create(Some(density), None),
    }
}

#[test]
fn step_size_rounds_down() {
    assert_eq!(compute_step_size(5, 1, 4), -1);
    assert_eq!(compute_step_size(1, 0, 4), -1);
    assert_eq!(compute_step_size(0, 5, 2), 2);
    assert_eq!(compute_step_size(5, 0, 2), -3);
    assert_eq!(compute_step_size(200, 0, 1), -200);
}

#[test]
fn step_size_forces_one_for_small_rises() {
    assert_eq!(compute_step_size(0, 1, 4), 1);
    assert_eq!(compute_step_size(3, 4, 200), 1);
}

#[test]
fn step_size_zero_for_equal_channels() {
    assert_eq!(compute_step_size(3, 3, 1), 0);
    assert_eq!(compute_step_size(0, 0, 9), 0);
}

#[test]
fn clip_keeps_channel_range() {
    assert_eq!(clip(3, 1), 3);
    assert_eq!(clip(-1, 1), 0);
    assert_eq!(clip(9, 1), 5);
    assert_eq!(clip(9, 7), 7);
    assert_eq!(clip(6, 7), 6);
    assert_eq!(clip(300, 200), 200);
}

#[test]
fn interpolate_has_steps_colours() {
    for steps in 1..=20u8 {
        let fade = interpolate(color(0, 5, 0), color(3, 1, 4), steps);
        assert_eq!(fade.len(), steps as usize);
    }
}

#[test]
fn interpolate_equal_colours_repeats_start() {
    let c = color(2, 4, 1);
    let fade = interpolate(c, c, 6);
    assert_eq!(fade, vec![c; 6]);
}

#[test]
fn interpolate_zero_steps_is_empty() {
    assert!(interpolate(color(0, 5, 0), color(0, 1, 0), 0).is_empty());
}

#[test]
fn interpolate_green_fade_of_four() {
    let fade = interpolate(color(0, 5, 0), color(0, 1, 0), 4);
    let greens: Vec<u8> = fade.iter().map(|c| c.g).collect();
    assert_eq!(greens, vec![5, 4, 3, 2]);
    for c in &fade {
        assert!(c.g >= 1 && c.g <= 5);
        assert_eq!(c.r, 0);
        assert_eq!(c.b, 0);
    }
}

#[test]
fn interpolate_long_fade_is_clamped() {
    let fade = interpolate(Color::pure_green(), Color::dark_green(), 8);
    let greens: Vec<u8> = fade.iter().map(|c| c.g).collect();
    assert_eq!(greens, vec![5, 4, 3, 2, 1, 0, 0, 0]);
}

#[test]
fn interpolate_small_rise_steps_by_one() {
    let fade = interpolate(color(0, 0, 0), color(1, 0, 0), 4);
    let reds: Vec<u8> = fade.iter().map(|c| c.r).collect();
    assert_eq!(reds, vec![0, 1, 2, 3]);
}

#[test]
fn random_trails_are_in_range() {
    let mut r = rng(1);
    let size = (7u16, 5u16);
    for _ in 0..500 {
        let t = Trail::random(size, &mut r);
        assert!(t.bottom.x >= 1 && t.bottom.x <= size.0);
        assert!(t.bottom.y >= 1 && t.bottom.y <= size.1 as u32);
        assert!(t.len >= 3 && t.len < MAX_LEN);
        assert!(t.speed >= 1 && t.speed < MAX_SPEED);
    }
}

#[test]
fn random_trails_vary() {
    let mut r = rng(2);
    let size = (40u16, 40u16);
    let first = Trail::random(size, &mut r);
    let mut differs = false;
    for _ in 0..50 {
        if Trail::random(size, &mut r) != first {
            differs = true;
        }
    }
    assert!(differs);
}

#[test]
fn random_trail_on_single_cell() {
    let t = Trail::random((1, 1), &mut rng(3));
    assert_eq!(t.bottom.x, 1);
    assert_eq!(t.bottom.y, 1);
}

#[test]
fn trail_below_grid_is_not_visible() {
    let t = Trail::new(4, 15, 3, 1);
    assert!(!t.is_visible((20, 10)));
}

#[test]
fn visibility_boundary() {
    assert!(Trail::new(1, 12, 3, 1).is_visible((5, 10)));
    assert!(!Trail::new(1, 13, 3, 1).is_visible((5, 10)));
    assert!(Trail::new(1, 2, 5, 1).is_visible((5, 10)));
    assert!(!Trail::new(1, 3, 3, 1).is_visible((5, 0)));
    assert!(Trail::new(1, 2, 3, 1).is_visible((5, 0)));
}

#[test]
fn advancing_trail_stays_visible_then_leaves() {
    let size = (5u16, 10u16);
    let mut t = Trail::new(2, 9, 3, 2);
    assert!(t.is_visible(size));
    t.advance();
    assert_eq!(t.bottom.y, 11);
    assert!(t.is_visible(size));
    let mut moves = 0;
    while t.is_visible(size) {
        t.advance();
        moves += 1;
    }
    assert_eq!(moves, 1);
    assert_eq!(t.bottom.y, 13);
}

#[test]
fn state_holds_one_trail_per_density_cells() {
    let s = State::new((80, 24), Config::create(Some(30), None), &mut rng(4));
    assert_eq!(s.trails.len(), 64);
    let s = State::new((10, 3), Config::create(Some(31), None), &mut rng(4));
    assert_eq!(s.trails.len(), 0);
    let s = State::new((0, 30), Config::create(Some(1), None), &mut rng(4));
    assert_eq!(s.trails.len(), 0);
}

#[test]
fn single_cell_grid_has_one_trail() {
    let mut r = rng(5);
    let mut s = State::new((1, 1), Config::create(Some(1), None), &mut r);
    assert_eq!(s.trails.len(), 1);
    for _ in 0..30 {
        let before = s.trails[0];
        tick(&mut s, &mut r);
        assert_eq!(s.trails.len(), 1);
        let after = s.trails[0];
        if before.is_visible((1, 1)) {
            assert_eq!(after.bottom.x, before.bottom.x);
            assert_eq!(after.bottom.y, before.bottom.y + before.speed as u32);
            assert_eq!(after.len, before.len);
        } else {
            assert_eq!(after.bottom.x, 1);
            assert_eq!(after.bottom.y, 1 + after.speed as u32);
        }
        for cell in render(&s, &mut r) {
            assert_eq!(cell.x, 1);
            assert!(cell.y >= 1);
        }
    }
}

#[test]
fn tick_respawns_trail_that_scrolled_away() {
    let mut s = state_with((1, 10), 10, vec![Trail::new(1, 15, 3, 1)]);
    tick(&mut s, &mut rng(6));
    let t = s.trails[0];
    // Replaced, then moved in the same frame.
    assert!(t.bottom.y >= 1 + t.speed as u32);
    assert!(t.bottom.y <= 10 + t.speed as u32);
    assert!(t.len >= 3 && t.len < MAX_LEN);
    assert!(t.speed >= 1 && t.speed < MAX_SPEED);
}

#[test]
fn tick_moves_visible_trails_only() {
    let trails = vec![Trail::new(1, 9, 3, 2), Trail::new(2, 13, 3, 1), Trail::new(2, 4, 11, 1)];
    let mut s = state_with((3, 10), 10, trails);
    tick(&mut s, &mut rng(7));
    assert_eq!(s.trails.len(), 3);
    assert_eq!(s.trails[0], Trail::new(1, 11, 3, 2));
    assert_eq!(s.trails[2], Trail::new(2, 5, 11, 1));
    let t = s.trails[1];
    assert!(t.bottom.y >= 1 + t.speed as u32 && t.bottom.y <= 10 + t.speed as u32);
}

#[test]
fn seeded_runs_are_identical() {
    let run = |seed: u64| {
        let mut r = rng(seed);
        let mut s = State::new((30, 12), Config::create(Some(5), None), &mut r);
        for _ in 0..40 {
            tick(&mut s, &mut r);
        }
        s.trails
    };
    assert_eq!(run(11), run(11));
    assert_ne!(run(11), run(12));
}

#[test]
fn trail_render_skips_rows_above_top() {
    let charset = vec!['a', 'b'];
    let cells = Trail::new(3, 2, 5, 1).render(&charset, &mut rng(8));
    assert_eq!(cells.len(), 2);
    assert_eq!((cells[0].x, cells[0].y, cells[0].color), (3, 2, color(0, 5, 0)));
    assert_eq!((cells[1].x, cells[1].y, cells[1].color), (3, 1, color(0, 4, 0)));
    for c in &cells {
        assert!(charset.contains(&c.glyph));
    }
}

#[test]
fn trail_render_follows_fade() {
    let charset = vec!['#'];
    let cells = Trail::new(1, 20, 4, 1).render(&charset, &mut rng(9));
    let rows: Vec<u32> = cells.iter().map(|c| c.y).collect();
    assert_eq!(rows, vec![20, 19, 18, 17]);
    let greens: Vec<u8> = cells.iter().map(|c| c.color.g).collect();
    assert_eq!(greens, vec![5, 4, 3, 2]);
    assert!(cells.iter().all(|c| c.glyph == '#'));
}

#[test]
fn glyphs_are_drawn_from_charset() {
    let charset = vec!['p', 'q', 'r', 's'];
    let mut r = rng(10);
    let mut seen = Vec::new();
    for _ in 0..200 {
        let c = Trail::gen_char(&charset, &mut r);
        assert!(charset.contains(&c));
        if !seen.contains(&c) {
            seen.push(c);
        }
    }
    assert_eq!(seen.len(), 4);
}

#[test]
fn frame_draws_trails_in_order() {
    let trails = vec![Trail::new(1, 1, 3, 1), Trail::new(2, 3, 3, 2)];
    let mut s = state_with((2, 5), 5, trails);
    s.config = Config::create(Some(5), Some(vec!['z']));
    let frame: Vec<Cell> = render(&s, &mut rng(11));
    let spots: Vec<(u16, u32, u8)> = frame.iter().map(|c| (c.x, c.y, c.color.g)).collect();
    assert_eq!(spots, vec![(1, 1, 5), (2, 3, 5), (2, 2, 3), (2, 1, 1)]);
    assert!(frame.iter().all(|c| c.glyph == 'z'));
}

#[test]
fn config_defaults() {
    let c = Config::create(None, None);
    assert_eq!(c.trail_density, DEFAULT_TRAIL_DENSITY);
    assert_eq!(c.trail_density, 30);
    assert_eq!(c.rain_charset.len(), 11);
    assert_eq!(c.rain_charset, Config::default_charset());
}

#[test]
fn config_replaces_unusable_values() {
    let c = Config::create(Some(0), Some(Vec::new()));
    assert_eq!(c.trail_density, 30);
    assert_eq!(c.rain_charset, Config::default_charset());
    let c = Config::create(Some(7), Some(vec!['1', '0']));
    assert_eq!(c.trail_density, 7);
    assert_eq!(c.rain_charset, vec!['1', '0']);
}

#[test]
fn fades_move_towards_end_and_stay_in_cube() {
    let ends = [color(0, 5, 0), color(0, 1, 0), color(5, 0, 3), color(2, 2, 2)];
    for &start in &ends {
        for &end in &ends {
            for steps in 1..=12u8 {
                let fade = interpolate(start, end, steps);
                for w in fade.windows(2) {
                    let pairs = [(w[0].r, w[1].r, start.r, end.r), (w[0].g, w[1].g, start.g, end.g), (w[0].b, w[1].b, start.b, end.b)];
                    for (a, b, s, e) in pairs {
                        if s <= e {
                            assert!(a <= b);
                        }
                        if s >= e {
                            assert!(a >= b);
                        }
                    }
                }
                for c in &fade {
                    assert!(c.r <= 5 && c.g <= 5 && c.b <= 5);
                }
            }
        }
    }
}
