use pokeball::ascii::AsciiImage;
use pokeball::color::CellColor;
use pokeball::color::ColorMode;
use pokeball::color::Rgb;
use pokeball::compose::blit_sprite;
use pokeball::compose::build_particles;
use pokeball::compose::draw_text;
use pokeball::compose::open_amount;
use pokeball::compose::render_scene;
use pokeball::compose::SPRITE_DEPTH;
use pokeball::compose::TEXT_DEPTH;
use pokeball::fixed::cos_cr;
use pokeball::fixed::norm_cr;
use pokeball::fixed::sin_cr;
use pokeball::framebuffer::FrameBuffer;
use pokeball::framebuffer::DEPTH_EMPTY;
use pokeball::game::Phase;
use pokeball::game::SceneState;
use pokeball::game::Screen;
use pokeball::serialize::render_frame;
use pokeball::sphere::rasterize_sphere;

fn ramp10() -> Vec<char> {
    vec![' ', '.', ':', '-', '=', '+', '*', '#', '%', '@']
}

#[test]
fn sine_quarter_points() {
    assert_eq!(sin_cr(0), 0);
    assert_eq!(sin_cr(157), 1024);
    assert_eq!(sin_cr(314), 0);
    assert_eq!(sin_cr(471), -1024);
    assert_eq!(cos_cr(0), sin_cr(157));
    assert_eq!(norm_cr(-5), 623);
    assert_eq!(norm_cr(628), 0);
    // the approximation stays within the unit band
    for a in 0..628 {
        let s = sin_cr(a);
        assert!((-1024..=1024).contains(&s));
    }
}

#[test]
fn depth_test_is_monotonic() {
    let mut fb = FrameBuffer::new(8, 4);
    assert_eq!(fb.depths[0], DEPTH_EMPTY);
    assert!(fb.write_cell(2, 1, 500, 'a', CellColor::Named(91)));
    let idx = 1 * 8 + 2;
    assert_eq!(fb.glyphs[idx], 'a');
    assert_eq!(fb.depths[idx], 500);
    // an equal or lower depth never alters the cell
    assert!(!fb.write_cell(2, 1, 500, 'b', CellColor::Named(97)));
    assert!(!fb.write_cell(2, 1, 400, 'c', CellColor::Named(97)));
    assert_eq!(fb.glyphs[idx], 'a');
    assert_eq!(fb.depths[idx], 500);
    // a strictly greater depth wins
    assert!(fb.write_cell(2, 1, 600, 'd', CellColor::Named(30)));
    assert_eq!(fb.glyphs[idx], 'd');
    assert_eq!(fb.depths[idx], 600);
    fb.clear();
    assert_eq!(fb.glyphs[idx], ' ');
    assert_eq!(fb.depths[idx], DEPTH_EMPTY);
}

fn tiny_sprite() -> AsciiImage {
    // 2x2: one visible cell
    AsciiImage {
        width: 2,
        height: 2,
        chars: vec!['x', ' ', ' ', 'y'],
        colors: vec![
            Rgb { r: 1, g: 2, b: 3 },
            Rgb { r: 0, g: 0, b: 0 },
            Rgb { r: 0, g: 0, b: 0 },
            Rgb { r: 9, g: 8, b: 7 },
        ],
    }
}

#[test]
fn blit_writes_visible_cells_only() {
    let mut fb = FrameBuffer::new(6, 4);
    blit_sprite(&mut fb, &tiny_sprite(), 1, 1);
    let at = |x: usize, y: usize| y * 6 + x;
    assert_eq!(fb.glyphs[at(1, 1)], 'x');
    assert_eq!(fb.colors[at(1, 1)], CellColor::Rgb(1, 2, 3));
    assert_eq!(fb.depths[at(1, 1)], SPRITE_DEPTH);
    // the space cells of the sprite leave the frame untouched
    assert_eq!(fb.glyphs[at(2, 1)], ' ');
    assert_eq!(fb.depths[at(2, 1)], DEPTH_EMPTY);
    assert_eq!(fb.glyphs[at(2, 2)], 'y');
    // clipping: a sprite partly off the frame writes only what lands
    let mut fb2 = FrameBuffer::new(6, 4);
    blit_sprite(&mut fb2, &tiny_sprite(), 5, 3);
    assert_eq!(fb2.glyphs[at(5, 3)], 'x');
}

#[test]
fn text_layer_sits_on_top() {
    let mut fb = FrameBuffer::new(10, 3);
    blit_sprite(&mut fb, &tiny_sprite(), 0, 0);
    draw_text(&mut fb, &vec!['h', 'i'], 0, 0, CellColor::Named(97), TEXT_DEPTH);
    assert_eq!(fb.glyphs[0], 'h');
    assert_eq!(fb.glyphs[1], 'i');
    assert_eq!(fb.depths[0], TEXT_DEPTH);
}

#[test]
fn particles_cover_visible_cells() {
    let plan = build_particles(&tiny_sprite(), 3, 2);
    assert_eq!(plan.len(), 2);
    assert_eq!(plan[0].x, 10 * 3);
    assert_eq!(plan[0].y, 10 * 2);
    assert_eq!(plan[1].x, 10 * 4);
    assert_eq!(plan[1].y, 10 * 3);
}

#[test]
fn open_amount_ramps() {
    assert_eq!(open_amount(Phase::Idle, 0), 0);
    assert_eq!(open_amount(Phase::Opening, 0), 0);
    assert_eq!(open_amount(Phase::Opening, 15), 512);
    assert_eq!(open_amount(Phase::Absorbing, 5), 1024);
    assert_eq!(open_amount(Phase::Closing, 0), 1024);
    assert_eq!(open_amount(Phase::Closing, 10), 512);
    assert_eq!(open_amount(Phase::StarHold, 0), 0);
}

#[test]
fn sphere_draws_and_respects_depths() {
    let mut fb = FrameBuffer::new(60, 30);
    let before: Vec<i32> = fb.depths.clone();
    rasterize_sphere(&mut fb, &ramp10(), 0, 0, 0, 50, 0);
    let drawn = fb.glyphs.iter().filter(|&&g| g != ' ').count();
    assert!(drawn > 0, "the ball must cover some cells");
    for i in 0..fb.depths.len() {
        assert!(fb.depths[i] >= before[i], "depths only deepen");
        if fb.glyphs[i] != ' ' {
            assert!(fb.depths[i] > DEPTH_EMPTY);
        }
    }
    // the ball carries named colors only
    for c in fb.colors.iter() {
        match c {
            CellColor::Rgb(_, _, _) => panic!("sphere cells use named colors"),
            _ => {}
        }
    }
}

#[test]
fn mono_frame_serializes_exactly() {
    let mut fb = FrameBuffer::new(2, 2);
    fb.write_cell(0, 0, 10, 'a', CellColor::Named(91));
    fb.write_cell(1, 1, 10, 'b', CellColor::Rgb(1, 2, 3));
    let out: String = render_frame(&fb, ColorMode::Mono).into_iter().collect();
    assert_eq!(out, "\u{1b}[Ha \n b\n\u{1b}[J");
}

#[test]
fn truecolor_frame_emits_rgb_escapes() {
    let mut fb = FrameBuffer::new(2, 1);
    fb.write_cell(0, 0, 10, 'z', CellColor::Rgb(1, 22, 133));
    let out: String = render_frame(&fb, ColorMode::TrueColor).into_iter().collect();
    assert_eq!(out, "\u{1b}[H\u{1b}[38;2;1;22;133mz\u{1b}[0m \n\u{1b}[J");
}

#[test]
fn ansi256_frame_quantizes() {
    let mut fb = FrameBuffer::new(1, 1);
    fb.write_cell(0, 0, 10, 'q', CellColor::Rgb(128, 128, 128));
    let out: String = render_frame(&fb, ColorMode::Ansi256).into_iter().collect();
    assert_eq!(out, "\u{1b}[H\u{1b}[38;5;244mq\u{1b}[0m\n\u{1b}[J");
}

#[test]
fn named_color_frame_uses_sgr_code() {
    let mut fb = FrameBuffer::new(1, 1);
    fb.write_cell(0, 0, 10, 'n', CellColor::Named(91));
    let out: String = render_frame(&fb, ColorMode::Ansi256).into_iter().collect();
    assert_eq!(out, "\u{1b}[H\u{1b}[91mn\u{1b}[0m\n\u{1b}[J");
}

#[test]
fn whole_scene_renders_one_frame() {
    let mut fb = FrameBuffer::new(80, 24);
    let mut s = SceneState::new(b"growlithe".to_vec());
    s.handle_command(&b"ash".to_vec());
    assert_eq!(s.screen, Screen::Game);
    let out = render_scene(&mut fb, &s, &tiny_sprite(), &ramp10(), ColorMode::Mono);
    let text: String = out.into_iter().collect();
    assert!(text.starts_with("\u{1b}[H"));
    assert!(text.ends_with("\u{1b}[J"));
    assert!(text.contains("command: ash"));
    // the ball is on screen
    assert!(text.chars().filter(|c| !c.is_whitespace()).count() > 10);
    // the colored serialization of the same scene carries escapes
    let colored: String = render_scene(&mut fb, &s, &tiny_sprite(), &ramp10(), ColorMode::Ansi256)
        .into_iter()
        .collect();
    assert!(colored.contains("\u{1b}[38;5;"));
}

#[test]
fn name_screen_renders_prompt() {
    let mut fb = FrameBuffer::new(60, 10);
    let s = SceneState::new(b"growlithe".to_vec());
    let out = render_scene(&mut fb, &s, &tiny_sprite(), &ramp10(), ColorMode::Mono);
    let text: String = out.into_iter().collect();
    assert!(text.contains("enter trainer name:"));
}

#[test]
fn absorbing_scene_draws_particle_stream() {
    let mut fb = FrameBuffer::new(80, 24);
    let mut s = SceneState::new(b"growlithe".to_vec());
    s.handle_command(&b"ash".to_vec());
    s.phase = Phase::Absorbing;
    s.frame = 15;
    s.ball_x = 150;
    s.ball_y = 50;
    let out = render_scene(&mut fb, &s, &tiny_sprite(), &ramp10(), ColorMode::Mono);
    let text: String = out.into_iter().collect();
    // the sprite is hidden while absorbing; its cells travel as asterisks
    assert!(text.contains('*'));
}

#[test]
fn star_hold_scene_announces_the_catch() {
    let mut fb = FrameBuffer::new(80, 24);
    let mut s = SceneState::new(b"growlithe".to_vec());
    s.handle_command(&b"ash".to_vec());
    s.phase = Phase::StarHold;
    s.frame = 20;
    s.ball_x = 150;
    s.ball_y = 50;
    s.recorded = true;
    let out = render_scene(&mut fb, &s, &tiny_sprite(), &ramp10(), ColorMode::Mono);
    let text: String = out.into_iter().collect();
    assert!(text.contains("gotcha! growlithe"));
    assert!(text.contains('*'), "the starburst is on screen");
}

#[test]
fn dex_screens_render_their_text() {
    let mut fb = FrameBuffer::new(60, 10);
    let mut s = SceneState::new(b"growlithe".to_vec());
    s.handle_command(&b"ash".to_vec());
    s.handle_command(&b"dex".to_vec());
    let out = render_scene(&mut fb, &s, &tiny_sprite(), &ramp10(), ColorMode::Mono);
    let text: String = out.into_iter().collect();
    assert!(text.contains("caught: 0"));
    s.handle_command(&b"25".to_vec());
    let out = render_scene(&mut fb, &s, &tiny_sprite(), &ramp10(), ColorMode::Mono);
    let text: String = out.into_iter().collect();
    assert!(text.contains("entry 25"));
}
