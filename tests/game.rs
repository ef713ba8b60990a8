use bit_bound::framebuffer::FrameBuffer;
use bit_bound::game::{Enemy, GameState, render, update};
use bit_bound::memory::RuntimeMemory;
use bit_bound::sprite::Sprite;

#[test]
fn new_state_starts_centred() {
    let state = GameState::new();
    assert_eq!(state.player.x, 2);
    assert_eq!(state.player.y, 64);
    assert_eq!(state.enemies.len(), 0);
    assert_eq!(state.enemies.capacity(), 32);
}

#[test]
fn enemy_spawns_every_thirty_frames_and_moves() {
    let mut memory = RuntimeMemory::new();
    let mut state = GameState::new();
    for _ in 0..29 {
        update(&mut state, &mut memory);
    }
    assert_eq!(state.enemies.len(), 0);
    update(&mut state, &mut memory);
    assert_eq!(state.enemies.as_slice(), &[Enemy { x: 158, y: 72, vx: -1 }]);
    assert_eq!(state.spawn_timer, 0);
    assert_eq!(state.frame_counter, 30);
    assert_eq!(state.player.anim_timer, 30);
    for _ in 0..30 {
        update(&mut state, &mut memory);
    }
    assert_eq!(state.player.anim_timer, 0);
    assert_eq!(state.enemies.len(), 2);
    let mut xs: Vec<i32> = state.enemies.as_slice().iter().map(|e| e.x).collect();
    xs.sort();
    assert_eq!(xs, vec![128, 158]);
}

#[test]
fn enemies_leave_on_the_left() {
    let mut memory = RuntimeMemory::new();
    let mut state = GameState::new();
    for _ in 0..188 {
        update(&mut state, &mut memory);
    }
    assert!(state.enemies.as_slice().iter().any(|e| e.x == 0));
    update(&mut state, &mut memory);
    assert!(state.enemies.as_slice().iter().all(|e| e.x >= 0));
    assert_eq!(state.enemies.len(), 5);
}

#[test]
fn render_draws_player_and_enemies() {
    let mut memory = RuntimeMemory::new();
    let mut state = GameState::new();
    for _ in 0..30 {
        update(&mut state, &mut memory);
    }
    let mut data_a = vec![0u8; 16];
    data_a[0] = 0x80; // top-left pixel index 1
    let frame_a = Sprite::from_planar(8, 8, data_a).unwrap();
    let mut data_b = vec![0u8; 16];
    data_b[1] = 0x80; // top-left pixel index 2
    let frame_b = Sprite::from_planar(8, 8, data_b).unwrap();
    let mut fb = FrameBuffer::new();
    fb.clear(3);
    // anim_timer is 30: 30 % 20 = 10, so the second frame shows.
    render(&state, &mut fb, &frame_a, &frame_b);
    assert_eq!(fb.get_pixel(2, 64), 2);
    assert_eq!(fb.get_pixel(3, 64), 0);
    assert_eq!(fb.get_pixel(158, 72), 2);
    assert_eq!(fb.get_pixel(0, 0), 0);
    update(&mut state, &mut memory);
    for _ in 0..9 {
        update(&mut state, &mut memory);
    }
    // anim_timer 40: first frame.
    render(&state, &mut fb, &frame_a, &frame_b);
    assert_eq!(fb.get_pixel(2, 64), 1);
}
