use puyo_sim::controller::{Command, Controller, FrameInput, Keys, Screen};
use puyo_sim::game::{GameField, PlayContext};
use puyo_sim::localization::Lang;
use puyo_sim::puyo::{Orientation, Puyo, PuyoPuyo};
use puyo_sim::rng::PuyoPuyoFactory;
use puyo_sim::settings::Settings;
use puyo_sim::types::{GameEvent, GameInput, PlayState};

fn frame(field: &mut GameField, ctx: &mut PlayContext, now: u64, input: GameInput) -> Vec<GameEvent> {
    assert!(field.can_tick(ctx, now, input));
    let before = field.score();
    field.tick(ctx, now, input);
    field.update(ctx, now);
    assert!(field.score() >= before);
    field.drain_events()
}

fn colours(p: &PuyoPuyo) -> (Puyo, Puyo) {
    (p.axis(), p.child())
}

/// Runs frames 100 ms apart with the given first-frame input until the next
/// pair comes into play; returns the events and the time reached.
fn play_one_pair(
    field: &mut GameField,
    ctx: &mut PlayContext,
    mut now: u64,
    first: GameInput,
) -> (Vec<GameEvent>, u64) {
    let start = field.spawn_count();
    let mut events = Vec::new();
    let mut input = first;
    let mut frames = 0;
    while field.spawn_count() == start && !field.is_game_over() {
        now += 100;
        events.extend(frame(field, ctx, now, input));
        input = GameInput::default();
        frames += 1;
        assert!(frames < 2000);
    }
    (events, now)
}

#[test]
fn fresh_field_deals_the_seed_pairs() {
    let field = GameField::new(4, 42);
    let mut f = PuyoPuyoFactory::new(4, 42);
    let _first = f.create();
    let second = f.create();
    let third = f.create();
    assert_eq!(colours(field.next()), colours(&second));
    assert_eq!(colours(field.next_next()), colours(&third));
    assert_eq!(field.score(), 0);
    assert_eq!(field.spawn_count(), 0);
    assert!(!field.is_game_over());
    let visible = field.visible_field();
    assert_eq!(visible.len(), 12);
    assert!(visible.iter().all(|row| row.len() == 6 && row.iter().all(|c| c.is_none())));
}

#[test]
fn pair_falls_lands_and_next_comes() {
    let mut field = GameField::new(4, 42);
    let mut ctx = PlayContext::new(0);
    let mut f = PuyoPuyoFactory::new(4, 42);
    let first = f.create();
    let _second = f.create();
    let third = f.create();
    let fourth = f.create();
    let (events, _) = play_one_pair(&mut field, &mut ctx, 0, GameInput::default());
    assert_eq!(events, vec![GameEvent::PuyoLanded, GameEvent::PuyoLanded]);
    let visible = field.visible_field();
    assert_eq!(visible[11][2], Some(first.axis()));
    assert_eq!(visible[10][2], Some(first.child()));
    let placed = visible.iter().flatten().filter(|c| c.is_some()).count();
    assert_eq!(placed, 2);
    assert_eq!(field.spawn_count(), 1);
    assert_eq!(ctx.play_state, PlayState::Active);
    assert_eq!(colours(field.next()), colours(&third));
    assert_eq!(colours(field.next_next()), colours(&fourth));
    assert_eq!(field.score(), 0);
}

#[test]
fn pair_moves_left_then_lands() {
    let mut field = GameField::new(3, 7);
    let mut ctx = PlayContext::new(0);
    let first = PuyoPuyoFactory::new(3, 7).create();
    let left = GameInput { left: true, left_just: true, ..GameInput::default() };
    play_one_pair(&mut field, &mut ctx, 0, left);
    let visible = field.visible_field();
    assert_eq!(visible[11][1], Some(first.axis()));
    assert_eq!(visible[10][1], Some(first.child()));
    assert_eq!(visible[11][2], None);
}

#[test]
fn pair_turns_right_then_lands_flat() {
    let mut field = GameField::new(5, 99);
    let mut ctx = PlayContext::new(0);
    let first = PuyoPuyoFactory::new(5, 99).create();
    let turn = GameInput { rotate_right: true, ..GameInput::default() };
    play_one_pair(&mut field, &mut ctx, 0, turn);
    let visible = field.visible_field();
    assert_eq!(visible[11][2], Some(first.axis()));
    assert_eq!(visible[11][3], Some(first.child()));
    assert_eq!(visible[10][2], None);
}

#[test]
fn pair_turned_down_at_the_floor_is_kicked_up() {
    let mut field = GameField::new(4, 5);
    let mut ctx = PlayContext::new(0);
    let first = PuyoPuyoFactory::new(4, 5).create();
    // let the pair fall to the floor, then turn it twice
    let mut now = 0;
    while ctx.play_state == PlayState::Active {
        now += 100;
        frame(&mut field, &mut ctx, now, GameInput::default());
    }
    assert_eq!(ctx.play_state, PlayState::Settling);
    let turn = GameInput { rotate_right: true, ..GameInput::default() };
    now += 600;
    frame(&mut field, &mut ctx, now, turn);
    now += 600;
    frame(&mut field, &mut ctx, now, turn);
    let (_, _) = play_one_pair(&mut field, &mut ctx, now, GameInput::default());
    let visible = field.visible_field();
    // child below the axis: the axis was pushed up one row
    assert_eq!(visible[11][2], Some(first.child()));
    assert_eq!(visible[10][2], Some(first.axis()));
}

#[test]
fn stacking_ends_in_game_over() {
    let mut field = GameField::new(5, 2024);
    let mut ctx = PlayContext::new(0);
    let mut now = 0;
    let mut saw_game_over = false;
    let mut saw_pop = false;
    let mut pairs = 0;
    while !field.is_game_over() {
        let (events, t) = play_one_pair(&mut field, &mut ctx, now, GameInput::default());
        now = t;
        pairs += 1;
        assert!(pairs < 200);
        for e in events {
            match e {
                GameEvent::GameOver => saw_game_over = true,
                GameEvent::ChainPop { count, cells, .. } => {
                    assert!(count >= 1);
                    assert!(cells >= 4);
                    saw_pop = true;
                }
                _ => {}
            }
        }
    }
    assert!(saw_game_over);
    assert_eq!(saw_pop, field.score() > 0);
    assert!(field.visible_field()[0][2].is_some());
    // the game stays over
    let score = field.score();
    for _ in 0..5 {
        now += 100;
        frame(&mut field, &mut ctx, now, GameInput::default());
        assert!(field.is_game_over());
    }
    assert_eq!(field.score(), score);
}

#[test]
fn popped_puyos_are_reported_and_scored() {
    // many pairs in one column: whenever a group pops, the events give its
    // cells one by one and the score grows by at least ten per puyo
    let mut field = GameField::new(3, 31337);
    let mut ctx = PlayContext::new(0);
    let mut now = 0;
    let mut pairs = 0;
    while !field.is_game_over() && pairs < 120 {
        let before = field.score();
        let (events, t) = play_one_pair(&mut field, &mut ctx, now, GameInput::default());
        now = t;
        pairs += 1;
        let mut expected_popped = 0u32;
        let mut popped = 0u32;
        for e in &events {
            match e {
                GameEvent::ChainPop { cells, .. } => expected_popped += cells,
                GameEvent::Popped { row, col, .. } => {
                    assert!(*row < 12 && *col < 6);
                    popped += 1;
                }
                _ => {}
            }
        }
        assert_eq!(popped, expected_popped);
        assert!(field.score() >= before + 10 * popped);
    }
}

fn input(keys: Keys, now: u64) -> FrameInput {
    FrameInput { keys, game: GameInput::default(), now }
}

fn settings() -> Settings {
    Settings::from_stored(Some(4), Some(300), Some(700), Some(Lang::Ja))
}

#[test]
fn title_frame_commands() {
    let mut c = Controller::new(settings(), 0);
    assert!(matches!(c.screen(), Screen::Title));
    let cmds = c.step_with_seed(input(Keys::default(), 10), 1);
    assert_eq!(
        cmds,
        vec![
            Command::SetLang(Lang::Ja),
            Command::DrawBackground,
            Command::DrawField,
            Command::DrawPressStart,
            Command::SetBgm { playing: false, volume: 300 },
        ]
    );
    assert!(matches!(c.screen(), Screen::Title));
}

#[test]
fn enter_starts_a_game_with_the_given_seed() {
    let mut c = Controller::new(settings(), 0);
    let enter = Keys { enter: true, ..Keys::default() };
    c.step_with_seed(input(enter, 10), 77);
    assert!(matches!(c.screen(), Screen::Playing(_)));
    let expected = GameField::new(4, 77);
    let f = c.field().unwrap();
    assert_eq!(colours(f.next()), colours(expected.next()));
    assert_eq!(colours(f.next_next()), colours(expected.next_next()));
    assert_eq!(c.ctx().play_state, PlayState::Active);
    let cmds = c.step_with_seed(input(Keys::default(), 20), 5);
    assert_eq!(cmds[3], Command::SetBgm { playing: true, volume: 300 });
    assert_eq!(*cmds.last().unwrap(), Command::DrawFieldState);
}

#[test]
fn pause_menu_and_retry_with_same_pairs() {
    let mut c = Controller::new(settings(), 0);
    let enter = Keys { enter: true, ..Keys::default() };
    let escape = Keys { escape: true, ..Keys::default() };
    let down = Keys { down: true, ..Keys::default() };
    c.step_with_seed(input(enter, 10), 1234);
    let first_next = colours(c.field().unwrap().next());
    c.step_with_seed(input(escape, 20), 0);
    assert!(matches!(c.screen(), Screen::Paused { focused_index: 0, .. }));
    // Escape resumes
    c.step_with_seed(input(escape, 30), 0);
    assert!(matches!(c.screen(), Screen::Playing(_)));
    c.step_with_seed(input(escape, 40), 0);
    c.step_with_seed(input(down, 50), 0);
    let cmds = c.step_with_seed(input(down, 60), 0);
    assert_eq!(*cmds.last().unwrap(), Command::DrawPauseMenu(2));
    // retry with the same pairs: the fresh seed given is not used
    c.step_with_seed(input(enter, 70), 999);
    assert!(matches!(c.screen(), Screen::Playing(_)));
    assert_eq!(colours(c.field().unwrap().next()), first_next);
    assert_eq!(c.field().unwrap().spawn_count(), 0);
}

#[test]
fn settings_screen_round_trip() {
    let mut c = Controller::new(settings(), 0);
    let s_key = Keys { settings: true, ..Keys::default() };
    c.step_with_seed(input(s_key, 10), 0);
    assert!(matches!(c.screen(), Screen::Settings));
    let right = Keys { right: true, ..Keys::default() };
    let cmds = c.step_with_seed(input(right, 20), 0);
    assert_eq!(c.settings().puyo_colors, 5);
    assert!(cmds.contains(&Command::DrawSettings(*c.settings())));
    let escape = Keys { escape: true, ..Keys::default() };
    let cmds = c.step_with_seed(input(escape, 30), 0);
    assert!(matches!(c.screen(), Screen::Title));
    assert_eq!(*cmds.last().unwrap(), Command::SaveSettings(*c.settings()));
    assert_eq!(c.settings().puyo_colors, 5);
}

#[test]
fn game_over_menu_leads_back_to_title() {
    let mut c = Controller::new(settings(), 0);
    let enter = Keys { enter: true, ..Keys::default() };
    c.step_with_seed(input(enter, 0), 4321);
    let mut now = 0;
    let mut frames = 0;
    while matches!(c.screen(), Screen::Playing(_)) {
        now += 100;
        let i = input(Keys::default(), now);
        assert!(c.can_step(i));
        c.step_with_seed(i, 0);
        frames += 1;
        assert!(frames < 100_000);
    }
    assert!(matches!(c.screen(), Screen::GameOver { focused_index: 0 }));
    let up = Keys { up: true, ..Keys::default() };
    let cmds = c.step_with_seed(input(up, now + 100), 0);
    assert_eq!(*cmds.last().unwrap(), Command::DrawGameOver(2));
    c.step_with_seed(input(enter, now + 200), 0);
    assert!(matches!(c.screen(), Screen::Title));
}

#[test]
fn pause_keeps_the_field() {
    let mut c = Controller::new(settings(), 0);
    let enter = Keys { enter: true, ..Keys::default() };
    let escape = Keys { escape: true, ..Keys::default() };
    c.step_with_seed(input(enter, 0), 555);
    let mut now = 0;
    for _ in 0..30 {
        now += 100;
        c.step_with_seed(input(Keys::default(), now), 0);
    }
    now += 100;
    c.step_with_seed(input(escape, now), 0);
    let field = c.field().unwrap();
    let paused_pair = field.draw_list(c.ctx(), now).pair;
    let paused_cells = field.visible_field();
    let paused_ctx = *c.ctx();
    for _ in 0..50 {
        now += 100;
        c.step_with_seed(input(Keys::default(), now), 0);
        assert!(matches!(c.screen(), Screen::Paused { .. }));
    }
    assert_eq!(*c.ctx(), paused_ctx);
    now += 100;
    c.step_with_seed(input(escape, now), 0);
    assert!(matches!(c.screen(), Screen::Playing(_)));
    let field = c.field().unwrap();
    assert_eq!(field.draw_list(c.ctx(), now).pair, paused_pair);
    assert_eq!(field.visible_field(), paused_cells);
}

fn first_pairs(c: &Controller) -> Vec<(Puyo, Puyo)> {
    let f = c.field().unwrap();
    let pair = f.draw_list(c.ctx(), 0).pair.unwrap();
    vec![(pair.axis, pair.child), colours(f.next()), colours(f.next_next())]
}

#[test]
fn fresh_seeds_differ_between_games() {
    let s = Settings::from_stored(Some(5), None, None, None);
    let enter = Keys { enter: true, ..Keys::default() };
    let mut a = Controller::new(s, 0);
    assert!(a.field().is_none());
    a.step(input(enter, 10));
    let mut b = Controller::new(s, 0);
    b.step(input(enter, 10));
    let mut c = Controller::new(s, 0);
    c.step(input(enter, 10));
    let (pa, pb, pc) = (first_pairs(&a), first_pairs(&b), first_pairs(&c));
    assert!(pa != pb || pb != pc);
}
