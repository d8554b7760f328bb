use pong::game::{GameData, GameState, PlayerData, MAP_HEIGHT, UNIT};

fn game_with_ball(x: i64, y: i64, dx: i64, dy: i64) -> GameData {
    let mut g = GameData::new();
    g.ball = (x, y);
    g.ball_direction = (dx, dy);
    g
}

#[test]
fn new_game_starts_in_play() {
    let g = GameData::new();
    assert_eq!(g.state, GameState::Playing);
    assert_eq!(g.ball, (20_000, 10_000));
    assert_eq!(g.ball_direction, (1000, -500));
    assert_eq!(g.player1.position, 20_000);
    assert_eq!(g.player1.size, 3);
    assert_eq!(g.player1.score, 0);
    assert_eq!(g.player1.range, (17, 23));
    assert_eq!(g.last_update, 0);
}

#[test]
fn new_paddle_is_centered() {
    let p = PlayerData::new();
    assert_eq!(p.position, MAP_HEIGHT * UNIT / 2);
    assert!(p.contains(17) && p.contains(23));
    assert!(!p.contains(16) && !p.contains(24));
}

#[test]
fn ball_moves_by_speed_and_time() {
    let mut g = game_with_ball(40_000, 20_000, 1000, -500);
    g.advance(100);
    // 20 units/s * 0.1 s horizontally, 10 * -0.5 * 0.1 vertically
    assert_eq!(g.ball, (42_000, 19_500));
    assert_eq!(g.state, GameState::Playing);
}

#[test]
fn center_hit_reverses_without_spin() {
    // board 80x40, paddle size 3 at 20; ball at (2, 20) heading left
    let mut g = game_with_ball(2_000, 20_000, -1000, 0);
    assert_eq!(g.player1.size, 3);
    assert_eq!(g.player1.position, 20_000);
    g.advance(16);
    assert_eq!(g.ball_direction, (1000, 0));
    assert_eq!(g.ball, (1_680, 20_000));
    assert_eq!(g.state, GameState::Playing);
}

#[test]
fn edge_hit_adds_full_spin() {
    let mut g = game_with_ball(2_000, 23_000, -1000, 0);
    g.advance(0);
    assert_eq!(g.ball_direction, (1000, 1000));
}

#[test]
fn edge_hit_spin_is_clamped() {
    let mut g = game_with_ball(2_000, 23_000, -1000, 1000);
    g.advance(0);
    assert_eq!(g.ball_direction, (1000, 1500));
}

#[test]
fn right_paddle_bounces_too() {
    let mut g = game_with_ball(78_000, 19_000, 1000, 0);
    g.advance(0);
    // offset -1 unit on a paddle of size 3: spin -1/3
    assert_eq!(g.ball_direction, (-1000, -333));
}

#[test]
fn wall_bounce_reverses_and_clamps() {
    let mut g = game_with_ball(40_000, 100, 1000, -1000);
    g.advance(100);
    assert_eq!(g.ball.1, 0);
    assert_eq!(g.ball_direction.1, 1000);
    let mut h = game_with_ball(40_000, 39_900, 1000, 1000);
    h.advance(100);
    assert_eq!(h.ball.1, 40_000);
    assert_eq!(h.ball_direction.1, -1000);
}

#[test]
fn missing_a_paddle_loses() {
    let mut g = game_with_ball(500, 5_000, -1000, 0);
    g.advance(100);
    assert_eq!(g.state, GameState::Lost);
    assert_eq!(g.ball.0, -1_500);
}

#[test]
fn lost_game_does_not_change() {
    let mut g = game_with_ball(500, 5_000, -1000, 0);
    g.advance(100);
    let before = format!("{:?}", g);
    g.advance(1000);
    g.advance(5);
    g.update(99_999);
    assert_eq!(format!("{:?}", g), before);
}

#[test]
fn paddles_stay_on_board_over_many_steps() {
    let mut g = GameData::new();
    let mut now: u64 = 0;
    for k in 0..2000u64 {
        now += 16 + (k % 7);
        g.tick(now);
        for p in [g.player1, g.player2] {
            assert!(p.range.0 <= p.range.1 && p.range.1 <= 40);
            assert!(p.position - 3 * UNIT >= 0 && p.position + 3 * UNIT <= 40 * UNIT);
        }
        if g.state == GameState::Lost {
            break;
        }
    }
}

#[test]
fn move_player_shifts_by_delta() {
    let mut g = GameData::new();
    g.move_player(1, 1000);
    assert_eq!(g.player1.position, 21_000);
    g.move_player(2, -2500);
    assert_eq!(g.player2.position, 17_500);
}

#[test]
fn move_player_off_board_is_ignored() {
    let mut g = GameData::new();
    g.move_player(1, 17_001);
    assert_eq!(g.player1.position, 20_000);
    g.move_player(1, -17_001);
    assert_eq!(g.player1.position, 20_000);
    g.move_player(1, 17_000);
    assert_eq!(g.player1.position, 37_000);
    g.move_player(3, 1000);
    assert_eq!(g.player1.position, 37_000);
    assert_eq!(g.player2.position, 20_000);
}

#[test]
fn place_player_holds_paddle_on_board() {
    let mut g = GameData::new();
    g.place_player(1, 7_500);
    assert_eq!(g.player1.position, 7_500);
    g.place_player(1, 500);
    assert_eq!(g.player1.position, 3_000);
    g.place_player(1, 100_000);
    assert_eq!(g.player1.position, 37_000);
}

#[test]
fn update_uses_time_since_last_update() {
    let mut g = game_with_ball(40_000, 20_000, 1000, 0);
    g.update(100);
    assert_eq!(g.ball.0, 42_000);
    assert_eq!(g.last_update, 100);
    g.update(150);
    assert_eq!(g.ball.0, 43_000);
    g.update(120);
    assert_eq!(g.ball.0, 43_000);
    assert_eq!(g.last_update, 150);
}

#[test]
fn tick_moves_bot_toward_ball() {
    let mut g = game_with_ball(40_000, 30_000, 1000, 0);
    let s = g.tick(0);
    assert_eq!(s, GameState::Playing);
    assert_eq!(g.player2.position, 20_250);
    g.ball.1 = 10_000;
    g.tick(0);
    assert_eq!(g.player2.position, 20_000);
}

#[test]
fn follow_ball_stays_when_level() {
    let mut g = game_with_ball(40_000, 20_000, 1000, 0);
    g.follow_ball(1, 150);
    assert_eq!(g.player1.position, 20_000);
}

#[test]
fn draw_shows_paddles_and_ball() {
    let g = game_with_ball(40_500, 10_200, 1000, 0);
    assert_eq!(g.draw(1, 20), '#');
    assert_eq!(g.draw(78, 17), '@');
    assert_eq!(g.draw(40, 10), 'O');
    assert_eq!(g.draw(1, 10), ' ');
    let row: String = g.render_row(10).into_iter().collect();
    assert_eq!(row.len(), 82);
    assert!(row.starts_with('|') && row.ends_with('|'));
    assert_eq!(row.chars().nth(41), Some('O'));
}
