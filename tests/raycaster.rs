use raycaster::caster::{cast_ray, Intersect, MAX_DISTANCE, PATH_COLOR, TEXTURE_SIZE};
use raycaster::framebuffer::Framebuffer;
use raycaster::maze::{maze_to_text, parse_maze};
use raycaster::player::{column_angle, process_events, turned_heading, Dir, Keys, Player, FIX};
use raycaster::render::{
    draw_cell, draw_stake, render2d, render3d, CEILING_COLOR, FLOOR_COLOR, NUM_RAYS, PLAYER_COLOR,
};
use raycaster::texture::{cell_to_color, cell_to_texture_color, Texture, TextureSet};

fn grid(lines: &[&str]) -> Vec<Vec<char>> {
    lines.iter().map(|l| l.chars().collect()).collect()
}

fn room() -> Vec<Vec<char>> {
    grid(&["+++++", "+   +", "+   +", "+   +", "+++++"])
}

fn at(px: i64, py: i64) -> Player {
    Player { x: px * FIX, y: py * FIX, a: 0, fov: 1_047_198 }
}

fn solid(color: u32) -> Texture {
    Texture::from_pixels(2, 2, vec![color; 4]).unwrap()
}

fn textures() -> TextureSet {
    TextureSet { walls: vec![solid(1), solid(2), solid(3), solid(4)] }
}

#[test]
fn corridor_distance_matches_wall_offset() {
    let maze = grid(&["+++++++", "+     |", "+++++++"]);
    let mut fb = Framebuffer::new(80, 40, 0);
    let hit = cast_ray(&mut fb, &maze, &at(15, 15), Dir { dx: FIX, dy: 0 }, 10, false);
    // the first wall pixel is x = 60, 45 steps from x = 15
    assert_eq!(hit, Some(Intersect { distance: 45, impact: '|', tx: 5 * 230 / 10 }));
}

#[test]
fn corridor_distance_along_each_axis() {
    let maze = room();
    let p = at(25, 25);
    let mut fb = Framebuffer::new(1, 1, 0);
    let right = cast_ray(&mut fb, &maze, &p, Dir { dx: FIX, dy: 0 }, 10, false).unwrap();
    let left = cast_ray(&mut fb, &maze, &p, Dir { dx: -FIX, dy: 0 }, 10, false).unwrap();
    let down = cast_ray(&mut fb, &maze, &p, Dir { dx: 0, dy: FIX }, 10, false).unwrap();
    let up = cast_ray(&mut fb, &maze, &p, Dir { dx: 0, dy: -FIX }, 10, false).unwrap();
    assert_eq!(right.distance, 15);
    assert_eq!(left.distance, 16);
    assert_eq!(down.distance, 15);
    assert_eq!(up.distance, 16);
}

#[test]
fn texture_column_uses_horizontal_offset_inside_cell() {
    let maze = grid(&["+++", "+ +", "+++"]);
    let mut fb = Framebuffer::new(1, 1, 0);
    // moving up from (14, 15): first wall pixel (14, 9), hx = 4
    let hit = cast_ray(&mut fb, &maze, &at(14, 15), Dir { dx: 0, dy: -FIX }, 10, false).unwrap();
    assert_eq!(hit.distance, 6);
    assert_eq!(hit.tx, 4 * 230 / 10);
}

#[test]
fn texture_column_stays_in_texture() {
    let maze = room();
    let mut fb = Framebuffer::new(1, 1, 0);
    let dirs = [(65536, 0), (46341, 46341), (0, 65536), (-46341, 46341), (-65536, 0),
        (-46341, -46341), (0, -65536), (46341, -46341), (60000, 20000), (-3000, 65000)];
    for (dx, dy) in dirs {
        for block in [3usize, 7, 10, 13] {
            let p = Player { x: (block as i64 * 5 / 2) * FIX + 123, y: (block as i64 * 5 / 2) * FIX + 77, a: 0, fov: 0 };
            let hit = cast_ray(&mut fb, &maze, &p, Dir { dx, dy }, block, false).unwrap();
            assert!(hit.tx < TEXTURE_SIZE);
        }
    }
}

#[test]
fn room_ray_always_hits_border_wall() {
    let maze = room();
    let mut fb = Framebuffer::new(1, 1, 0);
    let p = at(25, 25);
    let dirs = [(65536, 0), (46341, 46341), (0, 65536), (-46341, 46341), (-65536, 0),
        (-46341, -46341), (0, -65536), (46341, -46341), (65000, 8000), (-20000, 62000)];
    for (dx, dy) in dirs {
        let hit = cast_ray(&mut fb, &maze, &p, Dir { dx, dy }, 10, false).unwrap();
        assert_eq!(hit.impact, '+');
        assert!(hit.distance <= 22);
    }
}

#[test]
fn ray_leaving_the_maze_reports_nothing() {
    let maze = grid(&["   ", "   "]);
    let mut fb = Framebuffer::new(1, 1, 0);
    assert_eq!(cast_ray(&mut fb, &maze, &at(5, 5), Dir { dx: FIX, dy: 0 }, 10, false), None);
    assert_eq!(cast_ray(&mut fb, &maze, &at(5, 5), Dir { dx: 0, dy: -FIX }, 10, false), None);
}

#[test]
fn ray_without_direction_gives_up() {
    let maze = grid(&["   ", "   "]);
    let mut fb = Framebuffer::new(1, 1, 0);
    assert_eq!(MAX_DISTANCE, 1048576);
    assert_eq!(cast_ray(&mut fb, &maze, &at(5, 5), Dir { dx: 0, dy: 0 }, 10, false), None);
}

#[test]
fn cast_ray_plots_its_path_when_asked() {
    let maze = grid(&["+++++", "+   +", "+++++"]);
    let mut fb = Framebuffer::new(50, 30, 7);
    let hit = cast_ray(&mut fb, &maze, &at(12, 15), Dir { dx: FIX, dy: 0 }, 10, true).unwrap();
    assert_eq!(hit.distance, 28);
    for x in 0..50 {
        let expected = if (12..=40).contains(&x) { PATH_COLOR } else { 7 };
        assert_eq!(fb.buffer[15 * 50 + x], expected);
    }
    assert_eq!(fb.buffer[14 * 50 + 20], 7);
    let mut quiet = Framebuffer::new(50, 30, 7);
    cast_ray(&mut quiet, &maze, &at(12, 15), Dir { dx: FIX, dy: 0 }, 10, false);
    assert!(quiet.buffer.iter().all(|&c| c == 7));
}

#[test]
fn point_outside_buffer_is_ignored() {
    let mut fb = Framebuffer::new(4, 3, 9);
    fb.set_current_color(5);
    fb.point(4, 0);
    fb.point(0, 3);
    assert!(fb.buffer.iter().all(|&c| c == 9));
    fb.point(3, 2);
    assert_eq!(fb.buffer[11], 5);
}

#[test]
fn wall_colors() {
    assert_eq!(cell_to_color('+'), 0xFF00FF);
    assert_eq!(cell_to_color('-'), 0xDD11DD);
    assert_eq!(cell_to_color('|'), 0xCC11CC);
    assert_eq!(cell_to_color('g'), 0xFF0000);
    assert_eq!(cell_to_color('x'), 0x000000);
}

#[test]
fn texture_lookup_by_wall_type() {
    let t = textures();
    assert_eq!(cell_to_texture_color(&t, '+', 0, 0), 1);
    assert_eq!(cell_to_texture_color(&t, '-', 1, 1), 2);
    assert_eq!(cell_to_texture_color(&t, '|', 0, 1), 3);
    assert_eq!(cell_to_texture_color(&t, 'g', 1, 0), 4);
    assert_eq!(cell_to_texture_color(&t, '?', 0, 0), 0);
}

#[test]
fn texture_coordinates_clamp_to_edge() {
    let t = Texture::from_pixels(2, 2, vec![10, 11, 12, 13]).unwrap();
    assert_eq!(t.get_pixel_color(1, 0), 11);
    assert_eq!(t.get_pixel_color(0, 1), 12);
    assert_eq!(t.get_pixel_color(229, 0), 11);
    assert_eq!(t.get_pixel_color(5, 9), 13);
}

#[test]
fn texture_from_pixels_checks_size() {
    assert!(Texture::from_pixels(2, 2, vec![0; 3]).is_none());
    assert!(Texture::from_pixels(0, 2, vec![]).is_none());
    assert!(Texture::from_pixels(2, 0, vec![]).is_none());
    assert!(Texture::from_pixels(3, 2, vec![0; 6]).is_some());
}

#[test]
fn draw_cell_fills_block() {
    let mut fb = Framebuffer::new(6, 6, 0);
    draw_cell(&mut fb, 2, 1, 3, 'g');
    for y in 0..6 {
        for x in 0..6 {
            let inside = (2..5).contains(&x) && (1..4).contains(&y);
            assert_eq!(fb.buffer[y * 6 + x], if inside { 0xFF0000 } else { 0 });
        }
    }
    let mut blank = Framebuffer::new(6, 6, 0);
    draw_cell(&mut blank, 0, 0, 3, ' ');
    assert!(blank.buffer.iter().all(|&c| c == 0));
}

#[test]
fn stake_height_halves_with_doubled_distance() {
    let t = textures();
    let mut near = Framebuffer::new(1, 200, 0);
    draw_stake(&mut near, &t, 0, &Intersect { distance: 140, impact: '+', tx: 0 });
    let mut far = Framebuffer::new(1, 200, 0);
    draw_stake(&mut far, &t, 0, &Intersect { distance: 280, impact: '+', tx: 0 });
    let tall = near.buffer.iter().filter(|&&c| c == 1).count();
    let short = far.buffer.iter().filter(|&&c| c == 1).count();
    assert_eq!(tall, 100);
    assert_eq!(short, 50);
    assert_eq!(near.buffer[49], 0);
    assert_eq!(near.buffer[50], 1);
    assert_eq!(near.buffer[149], 1);
    assert_eq!(near.buffer[150], 0);
}

#[test]
fn stake_at_zero_distance_fills_column() {
    let t = textures();
    let mut fb = Framebuffer::new(2, 50, 0);
    draw_stake(&mut fb, &t, 1, &Intersect { distance: 0, impact: '-', tx: 0 });
    for y in 0..50 {
        assert_eq!(fb.buffer[y * 2 + 1], 2);
        assert_eq!(fb.buffer[y * 2], 0);
    }
}

#[test]
fn render3d_paints_background_and_strips() {
    let maze = room();
    let t = textures();
    let mut fb = Framebuffer::new(4, 300, 0);
    let p = at(25, 25);
    let dirs = vec![Dir { dx: FIX, dy: 0 }; 4];
    render3d(&mut fb, &maze, &p, &dirs, 10, &t);
    // distance 15: strip height 300 * 70 / 15 = 1400, the whole column
    for y in 0..300 {
        for x in 0..4 {
            assert_eq!(fb.buffer[y * 4 + x], 1);
        }
    }
    let far = grid(&["+++++++++++++++++++++++++", "+                       +", "+++++++++++++++++++++++++"]);
    let mut fb3 = Framebuffer::new(2, 20, 0);
    render3d(&mut fb3, &far, &at(15, 15), &vec![Dir { dx: FIX, dy: 0 }; 2], 10, &t);
    // distance 225: strip height 20 * 70 / 225 = 6, rows 7..13
    assert_eq!(fb3.buffer[0], CEILING_COLOR);
    assert_eq!(fb3.buffer[6 * 2], CEILING_COLOR);
    assert_eq!(fb3.buffer[7 * 2], 1);
    assert_eq!(fb3.buffer[12 * 2 + 1], 1);
    assert_eq!(fb3.buffer[13 * 2], FLOOR_COLOR);
    assert_eq!(fb3.buffer[19 * 2 + 1], FLOOR_COLOR);
}

#[test]
fn render2d_draws_map_player_and_fan() {
    let maze = grid(&["+++", "+ g", "+++"]);
    let mut fb = Framebuffer::new(40, 40, 0);
    let p = at(15, 15);
    let dirs = vec![Dir { dx: 0, dy: FIX }; NUM_RAYS];
    render2d(&mut fb, &maze, &p, &dirs, 10);
    // the fan runs straight down from (15, 15) to the wall at y = 20
    for y in 15..=20 {
        assert_eq!(fb.buffer[y * 40 + 15], PATH_COLOR);
    }
    assert_eq!(fb.buffer[15 * 40 + 15], PLAYER_COLOR);
    assert_eq!(fb.buffer[0], 0xFF00FF);
    assert_eq!(fb.buffer[15 * 40 + 25], 0xFF0000);
    assert_eq!(fb.buffer[15 * 40 + 12], 0);
    assert_eq!(fb.buffer[35 * 40 + 35], 0);
    let white = fb.buffer.iter().filter(|&&c| c == PATH_COLOR).count();
    assert_eq!(white, 6);
}

#[test]
fn maze_text_round_trip() {
    let text: Vec<char> = "+++\n+ |\n+g+".chars().collect();
    let maze = parse_maze(&text);
    assert_eq!(maze, grid(&["+++", "+ |", "+g+"]));
    let back: String = maze_to_text(&maze).into_iter().collect();
    assert_eq!(back, "+++\n+ |\n+g+\n");
    let ended: Vec<char> = "ab\n\ncd\n".chars().collect();
    let rows = parse_maze(&ended);
    assert_eq!(rows, grid(&["ab", "", "cd"]));
    assert_eq!(maze_to_text(&rows), ended);
    assert!(parse_maze(&Vec::new()).is_empty());
}

#[test]
fn input_turns_then_moves() {
    let mut p = Player { x: 50 * FIX, y: 50 * FIX, a: 1_047_198, fov: 1_047_198 };
    let keys = Keys { left: false, right: true, up: true, down: false };
    let a = turned_heading(p.a, &keys);
    assert_eq!(a, 1_047_198 + 62_800);
    process_events(&mut p, &keys, Dir { dx: 32768, dy: -FIX });
    assert_eq!(p.a, 1_047_198 + 62_800);
    assert_eq!(p.x, 50 * FIX + 3 * 32768);
    assert_eq!(p.y, 50 * FIX - 3 * FIX);
    assert_eq!(p.fov, 1_047_198);
    let both = Keys { left: true, right: true, up: true, down: true };
    let before = p;
    process_events(&mut p, &both, Dir { dx: FIX, dy: FIX });
    assert_eq!(p, before);
}

#[test]
fn column_angles_span_field_of_view() {
    let p = Player { x: 0, y: 0, a: 1_000_000, fov: 1_000_000 };
    assert_eq!(column_angle(&p, 0, 4), 500_000);
    assert_eq!(column_angle(&p, 1, 4), 750_000);
    assert_eq!(column_angle(&p, 3, 4), 1_250_000);
    assert_eq!(column_angle(&p, 1, 3), 833_333);
}

