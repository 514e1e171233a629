use puyo_sim::audio::{BgmCommand, BgmState};
use puyo_sim::game::{DrawEffect, GameField, PlayContext};
use puyo_sim::puyo::Puyo;
use puyo_sim::render::{NextAnim, NextPuyo};
use puyo_sim::rng::PuyoPuyoFactory;
use puyo_sim::types::{GameInput, PlayState};

#[test]
fn music_follows_the_wanted_state() {
    let mut bgm = BgmState::new();
    assert!(!bgm.playing);
    assert_eq!(bgm.set_bgm(false), BgmCommand::Keep);
    assert_eq!(bgm.set_bgm(true), BgmCommand::Play);
    assert_eq!(bgm.set_bgm(true), BgmCommand::SetVolume);
    assert_eq!(bgm.set_bgm(true), BgmCommand::SetVolume);
    assert_eq!(bgm.set_bgm(false), BgmCommand::Stop);
    assert_eq!(bgm.set_bgm(false), BgmCommand::Keep);
    assert!(!bgm.playing);
}

#[test]
fn next_area_animation() {
    let a = NextPuyo::new(Puyo::Red, Puyo::Blue);
    let b = NextPuyo::new(Puyo::Green, Puyo::Green);
    let mut anim = NextAnim::new();
    anim.observe(0, 1000, a);
    assert_eq!(anim.current, Some(a));
    assert_eq!(anim.exiting, None);
    assert_eq!(anim.start_time, 0);
    assert_eq!(anim.progress(1000), 1000);
    anim.observe(1, 2000, b);
    assert_eq!(anim.current, Some(b));
    assert_eq!(anim.exiting, Some(a));
    assert_eq!(anim.generation, 1);
    assert_eq!(anim.progress(2000), 0);
    assert_eq!(anim.progress(2075), 500);
    assert_eq!(anim.progress(2150), 1000);
    assert_eq!(anim.progress(5000), 1000);
    assert_eq!(anim.progress(1500), 0);
    // the same spawn count does not restart it
    anim.observe(1, 2100, a);
    assert_eq!(anim.start_time, 2000);
    assert_eq!(anim.exiting, Some(a));
    assert_eq!(anim.current, Some(a));
}

#[test]
fn fresh_field_draw_list() {
    let field = GameField::new(4, 11);
    let ctx = PlayContext::new(0);
    let first = PuyoPuyoFactory::new(4, 11).create();
    let list = field.draw_list(&ctx, 0);
    assert!(list.field.is_empty());
    assert!(list.dropping.is_empty());
    let pair = list.pair.unwrap();
    assert_eq!((pair.axis, pair.child), (first.axis(), first.child()));
    assert_eq!((pair.col, pair.row, pair.angle), (2000, 2000, -1000));
    assert_eq!(DrawEffect::default(), DrawEffect { squash: None, visible: true });
}

#[test]
fn landed_pair_squashes_nothing_and_shows() {
    let mut field = GameField::new(4, 11);
    let mut ctx = PlayContext::new(0);
    let first = PuyoPuyoFactory::new(4, 11).create();
    let mut now = 0;
    while field.spawn_count() == 0 {
        now += 100;
        let input = GameInput::default();
        assert!(field.can_tick(&ctx, now, input));
        field.tick(&mut ctx, now, input);
        field.update(&mut ctx, now);
    }
    let list = field.draw_list(&ctx, now);
    assert_eq!(list.field.len(), 2);
    assert_eq!((list.field[0].puyo, list.field[0].col, list.field[0].row), (first.child(), 2000, 10000));
    assert_eq!((list.field[1].puyo, list.field[1].col, list.field[1].row), (first.axis(), 2000, 11000));
    assert!(list.field.iter().all(|d| d.effect.visible && d.effect.squash.is_none()));
    assert_eq!(ctx.play_state, PlayState::Active);
}

#[test]
fn turning_back_up_at_the_floor_stays_in_place() {
    let mut field = GameField::new(5, 3);
    let mut ctx = PlayContext::new(0);
    let first = PuyoPuyoFactory::new(5, 3).create();
    let right = GameInput { rotate_right: true, ..GameInput::default() };
    let left = GameInput { rotate_left: true, ..GameInput::default() };
    let mut now = 100;
    field.tick(&mut ctx, now, right);
    field.update(&mut ctx, now);
    while ctx.play_state == PlayState::Active {
        now += 100;
        field.tick(&mut ctx, now, GameInput::default());
        field.update(&mut ctx, now);
    }
    // flat on the floor; turning back up needs no kick
    now += 600;
    assert!(field.can_tick(&ctx, now, left));
    field.tick(&mut ctx, now, left);
    field.update(&mut ctx, now);
    while field.spawn_count() == 0 {
        now += 100;
        field.tick(&mut ctx, now, GameInput::default());
        field.update(&mut ctx, now);
    }
    let visible = field.visible_field();
    assert_eq!(visible[11][2], Some(first.axis()));
    assert_eq!(visible[10][2], Some(first.child()));
    assert_eq!(visible[11][3], None);
}

#[test]
fn displayed_angle_chases_the_turn() {
    let mut field = GameField::new(4, 8);
    let mut ctx = PlayContext::new(0);
    let right = GameInput { rotate_right: true, ..GameInput::default() };
    field.tick(&mut ctx, 16, right);
    field.update(&mut ctx, 16);
    let pair = field.draw_list(&ctx, 16).pair.unwrap();
    assert_eq!(pair.angle, -680);
    field.tick(&mut ctx, 32, GameInput::default());
    field.update(&mut ctx, 32);
    let pair = field.draw_list(&ctx, 32).pair.unwrap();
    assert_eq!(pair.angle, -463);
    // a second turn right keeps turning the same way
    field.tick(&mut ctx, 48, right);
    field.update(&mut ctx, 48);
    let pair = field.draw_list(&ctx, 48).pair.unwrap();
    assert!(pair.angle > -463 && pair.angle <= 1000);
    assert_eq!(pair.angle, -463 + (1463 * 320) / 1000);
    // the column jumps to its target within one frame of 16 ms
    assert_eq!(pair.col, 2000);
}
