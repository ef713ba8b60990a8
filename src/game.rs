use vstd::prelude::*;
use vstd::multiset::Multiset;
use crate::fixed_pool::FixedPool;
use crate::framebuffer::{FrameBuffer, HEIGHT, PIXELS, WIDTH, pixel_index};
use crate::memory::RuntimeMemory;
use crate::sprite::Sprite;

verus! {

/// The most enemies alive at once.
pub const MAX_ENEMIES: usize = 32;

/// Frames in one cycle of the player's animation timer.
pub const ANIM_PERIOD: u32 = 60;

/// Frames between two enemy spawns.
pub const SPAWN_INTERVAL: u32 = 30;

/// Frames that each of the two player sprite frames is shown.
pub const ANIM_FRAME_TICKS: u32 = 10;

pub struct Player {
    pub x: i32,
    pub y: i32,
    pub anim_timer: u32,
}

#[derive(Debug, Clone, Copy, PartialEq, Eq, Structural)]
pub struct Enemy {
    pub x: i32,
    pub y: i32,
    pub vx: i32,
}

/// The enemy that each spawn adds: at the right edge, half way down, moving left.
pub open spec fn spawned_enemy() -> Enemy {
    Enemy { x: (WIDTH - 1) as i32, y: (HEIGHT / 2) as i32, vx: -1i32 }
}

/// An enemy after one step of movement.
pub open spec fn advance(e: Enemy) -> Enemy {
    Enemy { x: (e.x + e.vx) as i32, y: e.y, vx: e.vx }
}

/// What one step leaves of an enemy: the moved enemy, unless it has left the
/// screen on the left.
pub open spec fn step_survivor(e: Enemy) -> Multiset<Enemy> {
    if e.x + e.vx >= 0 {
        Multiset::singleton(advance(e))
    } else {
        Multiset::empty()
    }
}

/// What one step leaves of a sequence of enemies, as a multiset.
pub open spec fn survivors(s: Seq<Enemy>) -> Multiset<Enemy>
    decreases s.len(),
{
    if s.len() == 0 {
        Multiset::empty()
    } else {
        step_survivor(s[0]).add(survivors(s.drop_first()))
    }
}

/// The live enemies after a spawn is attempted: added when the pool has room.
pub open spec fn after_spawn(live: Seq<Enemy>, spawn: bool) -> Seq<Enemy> {
    if spawn && live.len() < MAX_ENEMIES {
        live.push(spawned_enemy())
    } else {
        live
    }
}

/// An enemy the game can hold: on screen horizontally, moving left by one.
pub open spec fn enemy_ok(e: Enemy) -> bool {
    0 <= e.x < WIDTH && e.vx == -1
}

proof fn lemma_survivors_append(a: Seq<Enemy>, b: Seq<Enemy>)
    ensures
        survivors(a + b) == survivors(a).add(survivors(b)),
    decreases a.len(),
{
    if a.len() == 0 {
        assert(a + b =~= b);
        assert(survivors(a).add(survivors(b)) =~= survivors(b));
    } else {
        assert((a + b).drop_first() =~= a.drop_first() + b);
        lemma_survivors_append(a.drop_first(), b);
        assert(survivors(a + b) =~= survivors(a).add(survivors(b)));
    }
}

proof fn lemma_survivors_single(e: Enemy)
    ensures
        survivors(seq![e]) == step_survivor(e),
{
    let s = seq![e];
    assert(s.drop_first() =~= Seq::<Enemy>::empty());
    assert(s[0] == e);
    assert(survivors(s.drop_first()) == Multiset::<Enemy>::empty());
    assert(survivors(s) == step_survivor(e).add(Multiset::<Enemy>::empty()));
    assert(step_survivor(e).add(Multiset::<Enemy>::empty()) =~= step_survivor(e));
}

pub struct GameState {
    pub player: Player,
    pub enemies: FixedPool<Enemy, MAX_ENEMIES>,
    pub spawn_timer: u32,
    pub frame_counter: u32,
}

impl GameState {
    pub open spec fn wf(&self) -> bool {
        &&& self.enemies.wf()
        &&& self.player.anim_timer < ANIM_PERIOD
        &&& self.spawn_timer < SPAWN_INTERVAL
        &&& forall|k: int|
            0 <= k < self.enemies.live().len() ==> enemy_ok(#[trigger] self.enemies.live()[k])
    }

    pub fn new() -> (r: Self)
        ensures
            r.wf(),
            r.player.x == 2,
            r.player.y == HEIGHT / 2 - 8,
            r.player.anim_timer == 0,
            r.enemies.live().len() == 0,
            r.spawn_timer == 0,
            r.frame_counter == 0,
    {
        GameState {
            player: Player { x: 2, y: (HEIGHT / 2 - 8) as i32, anim_timer: 0 },
            enemies: FixedPool::new(Enemy { x: 0, y: 0, vx: 0 }),
            spawn_timer: 0,
            frame_counter: 0,
        }
    }
}

/// Advances the game by one frame: the animation timer cycles through
/// `ANIM_PERIOD` frames; every `SPAWN_INTERVAL` frames an enemy is spawned when
/// the pool has room (and silently dropped when it has not); then every enemy
/// moves, and those that leave the screen on the left are despawned.
pub fn update(state: &mut GameState, _memory: &mut RuntimeMemory)
    requires
        old(state).wf(),
    ensures
        final(state).wf(),
        final(state).enemies.live().len() <= MAX_ENEMIES,
        *final(_memory) == *old(_memory),
        final(state).player.x == old(state).player.x,
        final(state).player.y == old(state).player.y,
        final(state).player.anim_timer == (old(state).player.anim_timer + 1) % (ANIM_PERIOD as int),
        final(state).frame_counter == old(state).frame_counter.wrapping_add(1),
        final(state).spawn_timer == (old(state).spawn_timer + 1) % (SPAWN_INTERVAL as int),
        final(state).enemies.live().to_multiset() == survivors(
            after_spawn(
                old(state).enemies.live(),
                old(state).spawn_timer + 1 == SPAWN_INTERVAL,
            ),
        ),
{
    state.player.anim_timer = state.player.anim_timer + 1;
    state.frame_counter = state.frame_counter.wrapping_add(1);
    if state.player.anim_timer >= ANIM_PERIOD {
        state.player.anim_timer = 0;
    }
    state.spawn_timer = state.spawn_timer + 1;
    if state.spawn_timer >= SPAWN_INTERVAL {
        state.spawn_timer = 0;
        let _ = state.enemies.spawn(
            Enemy { x: (WIDTH - 1) as i32, y: (HEIGHT / 2) as i32, vx: -1 },
        );
    }
    let ghost pre = state.enemies.live();
    proof {
        assert(pre == after_spawn(
            old(state).enemies.live(),
            old(state).spawn_timer + 1 == SPAWN_INTERVAL,
        ));
        assert(pre.subrange(0, 0).to_multiset() =~= Multiset::empty()) by {
            broadcast use vstd::seq_lib::group_to_multiset_ensures;
        }
        assert(pre.subrange(0, pre.len() as int) =~= pre);
        assert(Multiset::<Enemy>::empty().add(survivors(pre)) =~= survivors(pre));
    }
    let mut i: usize = 0;
    while i < state.enemies.len()
        invariant
            state.enemies.wf(),
            state.player.x == old(state).player.x,
            state.player.y == old(state).player.y,
            state.player.anim_timer == (old(state).player.anim_timer + 1) % (ANIM_PERIOD as int),
            state.frame_counter == old(state).frame_counter.wrapping_add(1),
            state.spawn_timer == (old(state).spawn_timer + 1) % (SPAWN_INTERVAL as int),
            i <= state.enemies.live().len(),
            forall|k: int|
                0 <= k < state.enemies.live().len() ==> enemy_ok(
                    #[trigger] state.enemies.live()[k],
                ),
            state.enemies.live().subrange(0, i as int).to_multiset().add(
                survivors(
                    state.enemies.live().subrange(i as int, state.enemies.live().len() as int),
                ),
            ) == survivors(pre),
        decreases state.enemies.live().len() - i,
    {
        let ghost live = state.enemies.live();
        let ghost n = live.len() as int;
        let e = state.enemies.as_slice()[i];
        let moved = Enemy { x: e.x + e.vx, y: e.y, vx: e.vx };
        proof {
            let rest = live.subrange(i + 1, n);
            assert(live.subrange(i as int, n) =~= seq![e] + rest);
            lemma_survivors_append(seq![e], rest);
            lemma_survivors_single(e);
        }
        if moved.x < 0 {
            state.enemies.despawn(i);
            proof {
                let now = state.enemies.live();
                assert(now.subrange(0, i as int) =~= live.subrange(0, i as int));
                if i + 1 < n {
                    let mid = live.subrange(i + 1, n - 1);
                    let last = live[n - 1];
                    assert(live.subrange(i + 1, n) =~= mid + seq![last]);
                    assert(now.subrange(i as int, now.len() as int) =~= seq![last] + mid);
                    lemma_survivors_append(mid, seq![last]);
                    lemma_survivors_append(seq![last], mid);
                    assert(survivors(mid).add(survivors(seq![last])) =~= survivors(
                        seq![last],
                    ).add(survivors(mid)));
                } else {
                    assert(now.subrange(i as int, now.len() as int) =~= Seq::<Enemy>::empty());
                    assert(live.subrange(i + 1, n) =~= Seq::<Enemy>::empty());
                }
                assert(step_survivor(e) =~= Multiset::empty());
                assert forall|k: int| 0 <= k < now.len() implies enemy_ok(#[trigger] now[k]) by {
                    if k == i {
                        assert(now[k] == live[n - 1]);
                    } else {
                        assert(now[k] == live[k]);
                    }
                }
            }
        } else {
            state.enemies.set(i, moved);
            proof {
                let now = state.enemies.live();
                assert(moved == advance(e));
                assert(step_survivor(e) =~= Multiset::singleton(moved));
                assert(now.subrange(0, i + 1) =~= live.subrange(0, i as int).push(moved));
                assert(now.subrange(i + 1, n) =~= live.subrange(i + 1, n));
                broadcast use vstd::seq_lib::group_to_multiset_ensures;
                assert(now.subrange(0, i + 1).to_multiset() =~= live.subrange(
                    0,
                    i as int,
                ).to_multiset().insert(moved));
                assert(now.subrange(0, i + 1).to_multiset().add(survivors(now.subrange(i + 1, n)))
                    =~= survivors(pre));
            }
            i = i + 1;
        }
    }
    proof {
        let live = state.enemies.live();
        assert(live.subrange(0, live.len() as int) =~= live);
        assert(live.subrange(live.len() as int, live.len() as int) =~= Seq::<Enemy>::empty());
        assert(live.to_multiset().add(Multiset::empty()) =~= live.to_multiset());
    }
}

/// The pixels after a dot of palette index 2 is drawn at each enemy that is on screen.
pub open spec fn with_enemy_dots(pix: Seq<u8>, s: Seq<Enemy>) -> Seq<u8>
    decreases s.len(),
{
    if s.len() == 0 {
        pix
    } else {
        let e = s[0];
        let next = if 0 <= e.x < WIDTH && 0 <= e.y < HEIGHT {
            pix.update(pixel_index(e.x as int, e.y as int), 2u8)
        } else {
            pix
        };
        with_enemy_dots(next, s.drop_first())
    }
}

/// Which of the two player frames is shown at animation time `t`.
pub open spec fn shows_first_frame(t: u32) -> bool {
    t % 20 < ANIM_FRAME_TICKS
}

/// Draws one frame of the game: the screen cleared to index 0, the player's
/// current animation frame blitted at its position, and a dot for each enemy.
pub fn render(state: &GameState, framebuffer: &mut FrameBuffer, frame_a: &Sprite, frame_b: &Sprite)
    requires
        state.wf(),
        old(framebuffer).wf(),
        frame_a.wf(),
        frame_b.wf(),
    ensures
        final(framebuffer).wf(),
        final(framebuffer).pixels() == with_enemy_dots(
            (if shows_first_frame(state.player.anim_timer) {
                frame_a
            } else {
                frame_b
            }).blitted(
                Seq::new(PIXELS as nat, |i: int| 0u8),
                state.player.x as int,
                state.player.y as int,
            ),
            state.enemies.live(),
        ),
{
    framebuffer.clear(0);
    proof {
        assert(0u8 & 3u8 == 0u8) by (bit_vector);
        assert(Seq::new(PIXELS as nat, |i: int| 0u8 & 3u8) =~= Seq::new(PIXELS as nat, |i: int| 0u8));
    }
    let frame = if state.player.anim_timer % 20 < ANIM_FRAME_TICKS {
        frame_a
    } else {
        frame_b
    };
    framebuffer.blit(state.player.x, state.player.y, frame);
    let enemies = state.enemies.as_slice();
    let ghost live = state.enemies.live();
    let ghost goal = with_enemy_dots(framebuffer.pixels(), live);
    let mut i: usize = 0;
    assert(live.skip(0) =~= live);
    while i < enemies.len()
        invariant
            framebuffer.wf(),
            enemies@ == live,
            i <= live.len(),
            with_enemy_dots(framebuffer.pixels(), live.skip(i as int)) == goal,
        decreases live.len() - i,
    {
        let e = enemies[i];
        proof {
            assert(live.skip(i as int)[0] == e);
            assert(live.skip(i as int).drop_first() =~= live.skip(i + 1));
        }
        if e.x >= 0 && e.x < WIDTH as i32 && e.y >= 0 && e.y < HEIGHT as i32 {
            framebuffer.set_pixel(e.x as usize, e.y as usize, 2);
            proof {
                assert(2u8 & 3u8 == 2u8) by (bit_vector);
            }
        }
        i = i + 1;
    }
}

} // verus!
