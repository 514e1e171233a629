use vstd::prelude::*;
use crate::puyo::Puyo;
use crate::localization::Lang;
use crate::settings::{Settings, SettingsInput, SettingsEvent, settings_step, ui_in_range, lemma_ui_stays_in_range};
use crate::types::{PlayState, GameEvent, GameInput};
use crate::game::{
    GameField, FieldModel, PlayContext, tick_spec, update_spec, tick_allowed, fresh_field, model_ok,
    phase_ok,
};

verus! {

/// The screen shown.
pub enum Screen {
    Title,
    Playing(GameField),
    Paused { field: GameField, focused_index: usize },
    GameOver { focused_index: usize },
    Settings,
}

/// The screen as plain values.
pub enum ScreenModel {
    Title,
    Playing(FieldModel),
    Paused { field: FieldModel, focused_index: usize },
    GameOver { focused_index: usize },
    Settings,
}

impl View for Screen {
    type V = ScreenModel;

    open spec fn view(&self) -> ScreenModel {
        match self {
            Screen::Title => ScreenModel::Title,
            Screen::Playing(f) => ScreenModel::Playing(f@),
            Screen::Paused { field, focused_index } => ScreenModel::Paused {
                field: field@,
                focused_index: *focused_index,
            },
            Screen::GameOver { focused_index } => ScreenModel::GameOver { focused_index: *focused_index },
            Screen::Settings => ScreenModel::Settings,
        }
    }
}

impl Screen {
    /// The first screen: the title.
    pub fn new() -> (s: Self)
        ensures
            s@ == ScreenModel::Title,
    {
        Screen::Title
    }
}

/// The menu keys pressed in a frame (and the arrow keys held).
#[derive(Clone, Copy, PartialEq, Eq, Debug, Default, Structural)]
pub struct Keys {
    pub up: bool,
    pub down: bool,
    pub left: bool,
    pub right: bool,
    pub left_held: bool,
    pub right_held: bool,
    pub enter: bool,
    pub space: bool,
    pub escape: bool,
    /// the key that opens the settings from the title
    pub settings: bool,
}

/// Everything a frame reads: menu keys, play keys and the time in
/// milliseconds.
#[derive(Clone, Copy, PartialEq, Eq, Debug, Structural)]
pub struct FrameInput {
    pub keys: Keys,
    pub game: GameInput,
    pub now: u64,
}

/// What a frame asks the caller to do, in order.
#[derive(Clone, Copy, PartialEq, Eq, Debug, Structural)]
pub enum Command {
    SetLang(Lang),
    DrawBackground,
    DrawField,
    DrawPressStart,
    /// the music should be playing or not, at this volume (thousandths)
    SetBgm { playing: bool, volume: u32 },
    PlayPuyo(u32),
    PlayPop(u32),
    PlayGameOver(u32),
    /// show the chain counter at the centre of the popped cells
    StartChainEffect { count: u32, col_sum: u32, row_sum: u32, cells: u32 },
    /// a puyo popped at a visible cell: burst it into particles
    SpawnParticles { puyo: Puyo, col: usize, row: usize },
    DrawSettings(Settings),
    SaveSettings(Settings),
    DrawGameOver(usize),
    DrawPauseMenu(usize),
    /// draw the field of the game in progress
    DrawFieldState,
}

/// The screens, the play timers, the settings and the seed of the last game.
pub struct Controller {
    screen: Screen,
    ctx: PlayContext,
    settings: Settings,
    last_seed: Option<u64>,
}

/// The controller as plain values.
pub struct ControllerModel {
    pub screen: ScreenModel,
    pub ctx: PlayContext,
    pub settings: Settings,
    pub last_seed: Option<u64>,
}

impl View for Controller {
    type V = ControllerModel;

    closed spec fn view(&self) -> ControllerModel {
        ControllerModel {
            screen: self.screen@,
            ctx: self.ctx,
            settings: self.settings,
            last_seed: self.last_seed,
        }
    }
}

/// A fresh play context at `now`.
pub open spec fn fresh_ctx(now: u64) -> PlayContext {
    PlayContext {
        play_state: PlayState::Active,
        last_drop_time: now,
        last_frame_time: now,
        last_move_time: 0,
        move_repeating: false,
        settling_start: 0,
        sparkle_start: 0,
        last_rotation_press: None,
    }
}

/// What the controller keeps true: the settings screen state in range, a
/// game in progress consistent with its phase, menu focus on an item.
pub open spec fn controller_ok(c: ControllerModel) -> bool {
    &&& ui_in_range(c.settings)
    &&& match c.screen {
        ScreenModel::Playing(f) => model_ok(f) && phase_ok(f, c.ctx.play_state),
        ScreenModel::Paused { field, focused_index } => model_ok(field) && phase_ok(
            field,
            c.ctx.play_state,
        ) && focused_index < 4,
        ScreenModel::GameOver { focused_index } => focused_index < 3,
        _ => true,
    }
}

/// A new game with the given seed, or the fresh one if none is given.
pub open spec fn started(c: ControllerModel, seed: Option<u64>, now: u64, fresh: u64) -> ControllerModel {
    let s = match seed {
        Some(s) => s,
        None => fresh,
    };
    ControllerModel {
        last_seed: Some(s),
        screen: ScreenModel::Playing(fresh_field(c.settings.puyo_colors as nat, s)),
        ctx: fresh_ctx(now),
        ..c
    }
}

/// The title: Enter or Space starts a game with a fresh seed, S opens the
/// settings.
pub open spec fn title_spec(c: ControllerModel, input: FrameInput, fresh: u64) -> (ControllerModel, Seq<Command>) {
    let cmds = seq![
        Command::DrawPressStart,
        Command::SetBgm { playing: false, volume: c.settings.bgm_volume },
    ];
    if input.keys.enter || input.keys.space {
        (started(c, None, input.now, fresh), cmds)
    } else if input.keys.settings {
        (
            ControllerModel {
                settings: Settings { showing_credits: false, ..c.settings },
                screen: ScreenModel::Settings,
                ..c
            },
            cmds,
        )
    } else {
        (c, cmds)
    }
}

/// Leaving the settings: their screen state resets, the music stops, they
/// are stored, and the title shows.
pub open spec fn closed_settings(c: ControllerModel, cmds: Seq<Command>) -> (ControllerModel, Seq<Command>) {
    let s = Settings {
        test_bgm_active: false,
        showing_credits: false,
        showing_language_picker: false,
        focused_index: 0,
        ..c.settings
    };
    (
        ControllerModel { settings: s, screen: ScreenModel::Title, ..c },
        cmds + seq![
            Command::SetBgm { playing: false, volume: s.bgm_volume },
            Command::SaveSettings(s),
        ],
    )
}

/// The settings input of a frame.
pub open spec fn settings_input_of(k: Keys) -> SettingsInput {
    SettingsInput {
        navigate_prev: k.up,
        navigate_next: k.down,
        left_pressed: k.left,
        left_held: k.left_held,
        right_pressed: k.right,
        right_held: k.right_held,
        activate: k.enter || k.space,
    }
}

/// The settings screen: the settings handle the keys; a test sound plays on
/// request; Back or Escape leaves; otherwise the screen is drawn and the
/// music test follows its switch.
pub open spec fn settings_screen_spec(c: ControllerModel, input: FrameInput) -> (ControllerModel, Seq<Command>) {
    let (s1, ev) = settings_step(c.settings, settings_input_of(input.keys));
    let c1 = ControllerModel { settings: s1, ..c };
    let pre = match ev {
        Some(SettingsEvent::TestSe) => seq![Command::PlayPuyo(s1.se_volume)],
        _ => seq![],
    };
    if ev == Some(SettingsEvent::Close) || input.keys.escape {
        closed_settings(c1, pre)
    } else {
        (
            c1,
            pre + seq![
                Command::DrawSettings(s1),
                Command::SetBgm { playing: s1.test_bgm_active, volume: s1.bgm_volume },
            ],
        )
    }
}

/// A menu focus after the up and down keys, wrapping around `n` items.
pub open spec fn menu_focus(fi: usize, k: Keys, n: int) -> usize {
    let f1 = if k.up { ((fi + n - 1) % n) as usize } else { fi };
    if k.down { ((f1 + 1) % n) as usize } else { f1 }
}

/// The game-over menu: retry, retry with the same pairs, or back to the
/// title; Escape goes to the title.
pub open spec fn game_over_spec(c: ControllerModel, fi: usize, input: FrameInput, fresh: u64) -> (ControllerModel, Seq<Command>) {
    let f2 = menu_focus(fi, input.keys, 3);
    let c1 = ControllerModel { screen: ScreenModel::GameOver { focused_index: f2 }, ..c };
    let cmds = seq![
        Command::SetBgm { playing: false, volume: c.settings.bgm_volume },
        Command::DrawGameOver(f2),
    ];
    if input.keys.escape {
        (ControllerModel { screen: ScreenModel::Title, ..c1 }, cmds)
    } else if input.keys.enter || input.keys.space {
        if f2 == 0 {
            (started(c1, None, input.now, fresh), cmds)
        } else if f2 == 1 {
            (started(c1, c.last_seed, input.now, fresh), cmds)
        } else if f2 == 2 {
            (ControllerModel { screen: ScreenModel::Title, ..c1 }, cmds)
        } else {
            (c1, cmds)
        }
    } else {
        (c1, cmds)
    }
}

/// The commands for the events of a frame: sounds, the chain counter and
/// particle bursts.
pub open spec fn event_commands(evs: Seq<GameEvent>, se: u32) -> Seq<Command>
    decreases evs.len(),
{
    if evs.len() == 0 {
        seq![]
    } else {
        event_commands(evs.drop_last(), se) + match evs.last() {
            GameEvent::PuyoLanded => seq![Command::PlayPuyo(se)],
            GameEvent::ChainPop { count, col_sum, row_sum, cells } => seq![
                Command::PlayPop(se),
                Command::StartChainEffect { count, col_sum, row_sum, cells },
            ],
            GameEvent::Popped { puyo, col, row } => seq![Command::SpawnParticles { puyo, col, row }],
            GameEvent::GameOver => seq![Command::PlayGameOver(se)],
        }
    }
}

/// A frame of play: the music plays, the field runs one frame and updates
/// its display, its events become commands; the game-over menu follows a
/// game over, Escape pauses, otherwise the field is drawn.
pub open spec fn playing_spec(c: ControllerModel, f: FieldModel, input: FrameInput) -> (ControllerModel, Seq<Command>) {
    let (f1, ctx1) = tick_spec(f, c.ctx, input.now, input.game);
    let (f2, ctx2) = update_spec(f1, ctx1, input.now);
    let f3 = FieldModel { events: seq![], ..f2 };
    let cmds = seq![Command::SetBgm { playing: true, volume: c.settings.bgm_volume }]
        + event_commands(f2.events, c.settings.se_volume);
    if f3.is_game_over {
        (ControllerModel { screen: ScreenModel::GameOver { focused_index: 0 }, ctx: ctx2, ..c }, cmds)
    } else if input.keys.escape {
        (
            ControllerModel {
                screen: ScreenModel::Paused { field: f3, focused_index: 0 },
                ctx: ctx2,
                ..c
            },
            cmds,
        )
    } else {
        (
            ControllerModel { screen: ScreenModel::Playing(f3), ctx: ctx2, ..c },
            cmds.push(Command::DrawFieldState),
        )
    }
}

/// The pause menu: resume, retry, retry with the same pairs, or back to the
/// title; Escape resumes.
pub open spec fn paused_spec(c: ControllerModel, f: FieldModel, fi: usize, input: FrameInput, fresh: u64) -> (ControllerModel, Seq<Command>) {
    let f2 = menu_focus(fi, input.keys, 4);
    let c1 = ControllerModel { screen: ScreenModel::Paused { field: f, focused_index: f2 }, ..c };
    let cmds = seq![
        Command::SetBgm { playing: false, volume: c.settings.bgm_volume },
        Command::DrawFieldState,
        Command::DrawPauseMenu(f2),
    ];
    let resumed = ControllerModel { screen: ScreenModel::Playing(f), ..c1 };
    if input.keys.escape {
        (resumed, cmds)
    } else if input.keys.enter || input.keys.space {
        if f2 == 0 {
            (resumed, cmds)
        } else if f2 == 1 {
            (started(c1, None, input.now, fresh), cmds)
        } else if f2 == 2 {
            (started(c1, c.last_seed, input.now, fresh), cmds)
        } else if f2 == 3 {
            (ControllerModel { screen: ScreenModel::Title, ..c1 }, cmds)
        } else {
            (c1, cmds)
        }
    } else {
        (c1, cmds)
    }
}

/// One frame: the language follows the settings, the background and the
/// field frame are drawn, then the screen shown handles the frame.
/// `fresh` is the seed a new game gets when none is carried over.
pub open spec fn step_spec(c: ControllerModel, input: FrameInput, fresh: u64) -> (ControllerModel, Seq<Command>) {
    let pre = seq![Command::SetLang(c.settings.lang), Command::DrawBackground, Command::DrawField];
    let (c2, cmds) = match c.screen {
        ScreenModel::Title => title_spec(c, input, fresh),
        ScreenModel::Playing(f) => playing_spec(c, f, input),
        ScreenModel::Paused { field, focused_index } => paused_spec(c, field, focused_index, input, fresh),
        ScreenModel::GameOver { focused_index } => game_over_spec(c, focused_index, input, fresh),
        ScreenModel::Settings => settings_screen_spec(c, input),
    };
    (c2, pre + cmds)
}

/// The seed a frame's new game takes, if the frame starts one: `None` inside
/// means a fresh seed.
pub open spec fn game_start(c: ControllerModel, input: FrameInput) -> Option<Option<u64>> {
    let activate = input.keys.enter || input.keys.space;
    match c.screen {
        ScreenModel::Title => if activate {
            Some(None)
        } else {
            None
        },
        ScreenModel::GameOver { focused_index } => {
            let f2 = menu_focus(focused_index, input.keys, 3);
            if !input.keys.escape && activate && f2 == 0 {
                Some(None)
            } else if !input.keys.escape && activate && f2 == 1 {
                Some(c.last_seed)
            } else {
                None
            }
        },
        ScreenModel::Paused { focused_index, .. } => {
            let f2 = menu_focus(focused_index, input.keys, 4);
            if !input.keys.escape && activate && f2 == 1 {
                Some(None)
            } else if !input.keys.escape && activate && f2 == 2 {
                Some(c.last_seed)
            } else {
                None
            }
        },
        _ => None,
    }
}

/// A frame that starts a game starts it on the fresh field of the seed it
/// records, with play reset: a fresh seed for a new game, the recorded one
/// for a retry with the same pairs, so that a retry deals the very pairs of
/// the game that recorded the seed.
pub proof fn lemma_game_starts_from_seed(c: ControllerModel, input: FrameInput, fresh: u64)
    requires
        game_start(c, input) is Some,
    ensures
        ({
            let s = match game_start(c, input)->0 {
                Some(s) => s,
                None => fresh,
            };
            let c2 = step_spec(c, input, fresh).0;
            &&& c2.last_seed == Some(s)
            &&& c2.screen == ScreenModel::Playing(fresh_field(c.settings.puyo_colors as nat, s))
            &&& c2.ctx == fresh_ctx(input.now)
            &&& c2.settings == c.settings
        }),
{
}

/// Pausing freezes the game: a frame on the pause screen that starts no new
/// game keeps the play timers and either stays paused on the same field,
/// resumes exactly that field, or leaves for the title; Escape always
/// resumes it.
pub proof fn lemma_pause_freezes(c: ControllerModel, input: FrameInput, fresh: u64)
    requires
        c.screen is Paused,
        game_start(c, input) is None,
    ensures
        ({
            let f = c.screen->Paused_field;
            let c2 = step_spec(c, input, fresh).0;
            &&& c2.ctx == c.ctx
            &&& c2.settings == c.settings
            &&& c2.last_seed == c.last_seed
            &&& (c2.screen == ScreenModel::Playing(f) || c2.screen == ScreenModel::Title || (
            c2.screen is Paused && c2.screen->Paused_field == f))
            &&& input.keys.escape ==> c2.screen == ScreenModel::Playing(f)
        }),
{
}

/// Pausing and resuming give back the game as it was paused: a playing
/// frame with Escape that does not end the game shows the pause menu on
/// that frame's field with the first item focused, and a frame with Escape
/// there returns to play on exactly that field, with the play timers, the
/// settings and the recorded seed untouched.
pub proof fn lemma_pause_resume(c: ControllerModel, i1: FrameInput, i2: FrameInput, fresh1: u64, fresh2: u64)
    requires
        c.screen is Playing,
        i1.keys.escape,
        i2.keys.escape,
        !(step_spec(c, i1, fresh1).0.screen is GameOver),
    ensures
        ({
            let c1 = step_spec(c, i1, fresh1).0;
            let c2 = step_spec(c1, i2, fresh2).0;
            &&& c1.screen is Paused
            &&& c1.screen->Paused_focused_index == 0
            &&& c2.screen == ScreenModel::Playing(c1.screen->Paused_field)
            &&& c2.ctx == c1.ctx
            &&& c2.settings == c.settings
            &&& c2.last_seed == c.last_seed
        }),
{
}

/// The frames that run without a failure: a game in progress may run its
/// frame, and a new game has at least one colour to deal.
pub open spec fn step_allowed(c: ControllerModel, input: FrameInput) -> bool {
    &&& match c.screen {
        ScreenModel::Playing(f) => tick_allowed(f, c.ctx, input.now, input.game),
        _ => true,
    }
    &&& game_start(c, input) is Some ==> c.settings.puyo_colors >= 1
}

/// Calls `macroquad::rand::rand`, quad-rand's global generator. Any `u32`
/// may come back: it depends on the generator's state.
#[verifier::external_body]
fn random_u32() -> (r: u32) {
    macroquad::rand::rand()
}

/// A menu focus after the up and down keys.
fn move_focus(fi: usize, k: Keys, n: usize) -> (r: usize)
    requires
        fi < n,
        2 <= n <= 4,
    ensures
        r == menu_focus(fi, k, n as int),
        r < n,
{
    let f1 = if k.up {
        (fi + n - 1) % n
    } else {
        fi
    };
    if k.down {
        (f1 + 1) % n
    } else {
        f1
    }
}

impl Controller {
    /// The controller keeps its bounds.
    pub open spec fn wf(&self) -> bool {
        controller_ok(self@)
    }

    /// A controller on the title screen with the given settings, at time
    /// `now` (in milliseconds).
    pub fn new(settings: Settings, now: u64) -> (c: Self)
        requires
            ui_in_range(settings),
        ensures
            c@ == (ControllerModel {
                screen: ScreenModel::Title,
                ctx: fresh_ctx(now),
                settings,
                last_seed: None,
            }),
            c.wf(),
    {
        Controller { screen: Screen::new(), ctx: PlayContext::new(now), settings, last_seed: None }
    }

    /// The screen shown.
    pub fn screen(&self) -> (r: &Screen)
        ensures
            r@ == self@.screen,
    {
        &self.screen
    }

    /// The play timers.
    pub fn ctx(&self) -> (r: &PlayContext)
        ensures
            *r == self@.ctx,
    {
        &self.ctx
    }

    /// The settings.
    pub fn settings(&self) -> (r: &Settings)
        ensures
            *r == self@.settings,
    {
        &self.settings
    }

    /// The game in progress (playing or paused), if any.
    pub fn field(&self) -> (r: Option<&GameField>)
        ensures
            match self@.screen {
                ScreenModel::Playing(f) => r matches Some(g) && g@ == f,
                ScreenModel::Paused { field, .. } => r matches Some(g) && g@ == field,
                _ => r is None,
            },
    {
        match &self.screen {
            Screen::Playing(f) => Some(f),
            Screen::Paused { field, .. } => Some(field),
            _ => None,
        }
    }
}


/// The commands for one event.
fn push_event_commands(cmds: &mut Vec<Command>, e: GameEvent, se: u32)
    ensures
        final(cmds)@ == old(cmds)@ + match e {
            GameEvent::PuyoLanded => seq![Command::PlayPuyo(se)],
            GameEvent::ChainPop { count, col_sum, row_sum, cells } => seq![
                Command::PlayPop(se),
                Command::StartChainEffect { count, col_sum, row_sum, cells },
            ],
            GameEvent::Popped { puyo, col, row } => seq![Command::SpawnParticles { puyo, col, row }],
            GameEvent::GameOver => seq![Command::PlayGameOver(se)],
        },
{
    let ghost c0 = cmds@;
    match e {
        GameEvent::PuyoLanded => {
            cmds.push(Command::PlayPuyo(se));
        },
        GameEvent::ChainPop { count, col_sum, row_sum, cells } => {
            cmds.push(Command::PlayPop(se));
            cmds.push(Command::StartChainEffect { count, col_sum, row_sum, cells });
        },
        GameEvent::Popped { puyo, col, row } => {
            cmds.push(Command::SpawnParticles { puyo, col, row });
        },
        GameEvent::GameOver => {
            cmds.push(Command::PlayGameOver(se));
        },
    }
    proof {
        match e {
            GameEvent::PuyoLanded => {
                assert(cmds@ =~= c0 + seq![Command::PlayPuyo(se)]);
            },
            GameEvent::ChainPop { count, col_sum, row_sum, cells } => {
                assert(cmds@ =~= c0 + seq![
                    Command::PlayPop(se),
                    Command::StartChainEffect { count, col_sum, row_sum, cells },
                ]);
            },
            GameEvent::Popped { puyo, col, row } => {
                assert(cmds@ =~= c0 + seq![Command::SpawnParticles { puyo, col, row }]);
            },
            GameEvent::GameOver => {
                assert(cmds@ =~= c0 + seq![Command::PlayGameOver(se)]);
            },
        }
    }
}

impl Controller {
    /// Starts a new game with the given seed, or `fresh` if none is given.
    fn start_game(&mut self, seed: Option<u64>, now: u64, fresh: u64)
        requires
            old(self).settings.puyo_colors >= 1,
            ui_in_range(old(self).settings),
        ensures
            final(self)@ == started(old(self)@, seed, now, fresh),
            final(self).wf(),
    {
        let s = match seed {
            Some(s) => s,
            None => fresh,
        };
        self.last_seed = Some(s);
        self.screen = Screen::Playing(GameField::new(self.settings.puyo_colors, s));
        self.ctx = PlayContext::new(now);
    }

    fn update_title(&mut self, input: FrameInput, fresh: u64) -> (cmds: Vec<Command>)
        requires
            old(self).wf(),
            old(self)@.screen == ScreenModel::Title,
            step_allowed(old(self)@, input),
        ensures
            (final(self)@, cmds@) == title_spec(old(self)@, input, fresh),
            final(self).wf(),
    {
        let mut cmds: Vec<Command> = Vec::new();
        cmds.push(Command::DrawPressStart);
        cmds.push(Command::SetBgm { playing: false, volume: self.settings.bgm_volume });
        if input.keys.enter || input.keys.space {
            self.start_game(None, input.now, fresh);
        } else if input.keys.settings {
            self.settings.showing_credits = false;
            self.screen = Screen::Settings;
        }
        assert(cmds@ =~= seq![
            Command::DrawPressStart,
            Command::SetBgm { playing: false, volume: old(self)@.settings.bgm_volume },
        ]);
        cmds
    }

    fn close_settings(&mut self, cmds: &mut Vec<Command>)
        requires
            old(self).wf(),
        ensures
            (final(self)@, final(cmds)@) == closed_settings(old(self)@, old(cmds)@),
            final(self).wf(),
    {
        let ghost c0 = cmds@;
        self.settings.reset_ui_state();
        cmds.push(Command::SetBgm { playing: false, volume: self.settings.bgm_volume });
        cmds.push(Command::SaveSettings(self.settings));
        self.screen = Screen::Title;
        proof {
            let s = self.settings;
            assert(cmds@ =~= c0 + seq![
                Command::SetBgm { playing: false, volume: s.bgm_volume },
                Command::SaveSettings(s),
            ]);
        }
    }

    fn update_settings(&mut self, input: FrameInput) -> (cmds: Vec<Command>)
        requires
            old(self).wf(),
            old(self)@.screen == ScreenModel::Settings,
        ensures
            (final(self)@, cmds@) == settings_screen_spec(old(self)@, input),
            final(self).wf(),
    {
        let si = SettingsInput {
            navigate_prev: input.keys.up,
            navigate_next: input.keys.down,
            left_pressed: input.keys.left,
            left_held: input.keys.left_held,
            right_pressed: input.keys.right,
            right_held: input.keys.right_held,
            activate: input.keys.enter || input.keys.space,
        };
        proof {
            lemma_ui_stays_in_range(self.settings, si);
        }
        let ev = self.settings.handle_input(si);
        let mut cmds: Vec<Command> = Vec::new();
        let close = match ev {
            Some(SettingsEvent::TestSe) => {
                cmds.push(Command::PlayPuyo(self.settings.se_volume));
                false
            },
            Some(SettingsEvent::Close) => true,
            None => false,
        };
        if close || input.keys.escape {
            self.close_settings(&mut cmds);
            return cmds;
        }
        cmds.push(Command::DrawSettings(self.settings));
        cmds.push(
            Command::SetBgm { playing: self.settings.test_bgm_active, volume: self.settings.bgm_volume },
        );
        proof {
            let s1 = self.settings;
            let pre = match ev {
                Some(SettingsEvent::TestSe) => seq![Command::PlayPuyo(s1.se_volume)],
                _ => seq![],
            };
            assert(cmds@ =~= pre + seq![
                Command::DrawSettings(s1),
                Command::SetBgm { playing: s1.test_bgm_active, volume: s1.bgm_volume },
            ]);
        }
        cmds
    }

    fn update_game_over(&mut self, fi: usize, input: FrameInput, fresh: u64) -> (cmds: Vec<Command>)
        requires
            old(self).wf(),
            old(self)@.screen == (ScreenModel::GameOver { focused_index: fi }),
            step_allowed(old(self)@, input),
        ensures
            (final(self)@, cmds@) == game_over_spec(old(self)@, fi, input, fresh),
            final(self).wf(),
    {
        let f2 = move_focus(fi, input.keys, 3);
        self.screen = Screen::GameOver { focused_index: f2 };
        let mut cmds: Vec<Command> = Vec::new();
        cmds.push(Command::SetBgm { playing: false, volume: self.settings.bgm_volume });
        cmds.push(Command::DrawGameOver(f2));
        assert(cmds@ =~= seq![
            Command::SetBgm { playing: false, volume: old(self)@.settings.bgm_volume },
            Command::DrawGameOver(f2),
        ]);
        if input.keys.escape {
            self.screen = Screen::Title;
            return cmds;
        }
        if input.keys.enter || input.keys.space {
            if f2 == 0 {
                self.start_game(None, input.now, fresh);
            } else if f2 == 1 {
                let seed = self.last_seed;
                self.start_game(seed, input.now, fresh);
            } else if f2 == 2 {
                self.screen = Screen::Title;
            }
        }
        cmds
    }

    fn update_paused(&mut self, input: FrameInput, fresh: u64) -> (cmds: Vec<Command>)
        requires
            old(self).wf(),
            old(self)@.screen is Paused,
            step_allowed(old(self)@, input),
        ensures
            (final(self)@, cmds@) == paused_spec(
                old(self)@,
                old(self)@.screen->Paused_field,
                old(self)@.screen->Paused_focused_index,
                input,
                fresh,
            ),
            final(self).wf(),
    {
        let ghost c0 = self@;
        let mut scr = Screen::Title;
        std::mem::swap(&mut scr, &mut self.screen);
        let mut cmds: Vec<Command> = Vec::new();
        match scr {
            Screen::Paused { field, focused_index } => {
                let f2 = move_focus(focused_index, input.keys, 4);
                cmds.push(Command::SetBgm { playing: false, volume: self.settings.bgm_volume });
                cmds.push(Command::DrawFieldState);
                cmds.push(Command::DrawPauseMenu(f2));
                assert(cmds@ =~= seq![
                    Command::SetBgm { playing: false, volume: c0.settings.bgm_volume },
                    Command::DrawFieldState,
                    Command::DrawPauseMenu(f2),
                ]);
                let activate = input.keys.enter || input.keys.space;
                if input.keys.escape || (activate && f2 == 0) {
                    self.screen = Screen::Playing(field);
                } else if activate && f2 == 1 {
                    self.screen = Screen::Paused { field, focused_index: f2 };
                    self.start_game(None, input.now, fresh);
                } else if activate && f2 == 2 {
                    self.screen = Screen::Paused { field, focused_index: f2 };
                    let seed = self.last_seed;
                    self.start_game(seed, input.now, fresh);
                } else if activate && f2 == 3 {
                    self.screen = Screen::Title;
                } else {
                    self.screen = Screen::Paused { field, focused_index: f2 };
                }
            },
            _ => {
                self.screen = scr;
            },
        }
        cmds
    }

    fn update_playing(&mut self, input: FrameInput) -> (cmds: Vec<Command>)
        requires
            old(self).wf(),
            old(self)@.screen is Playing,
            step_allowed(old(self)@, input),
        ensures
            (final(self)@, cmds@) == playing_spec(old(self)@, old(self)@.screen->Playing_0, input),
            final(self).wf(),
    {
        let ghost c0 = self@;
        let mut cmds: Vec<Command> = Vec::new();
        cmds.push(Command::SetBgm { playing: true, volume: self.settings.bgm_volume });
        let mut scr = Screen::Title;
        std::mem::swap(&mut scr, &mut self.screen);
        match scr {
            Screen::Playing(mut field) => {
                field.tick(&mut self.ctx, input.now, input.game);
                field.update(&mut self.ctx, input.now);
                let events = field.drain_events();
                let se = self.settings.se_volume;
                let mut i: usize = 0;
                while i < events.len()
                    invariant
                        i <= events@.len(),
                        se == c0.settings.se_volume,
                        cmds@ == seq![Command::SetBgm { playing: true, volume: c0.settings.bgm_volume }]
                            + event_commands(events@.take(i as int), se),
                    decreases events@.len() - i,
                {
                    proof {
                        assert(events@.take(i + 1).drop_last() =~= events@.take(i as int));
                        assert(events@.take(i + 1).last() == events@[i as int]);
                    }
                    let ghost before = cmds@;
                    push_event_commands(&mut cmds, events[i], se);
                    assert(cmds@ =~= seq![Command::SetBgm { playing: true, volume: c0.settings.bgm_volume }]
                        + event_commands(events@.take(i + 1), se));
                    i = i + 1;
                }
                assert(events@.take(i as int) =~= events@);
                if field.is_game_over() {
                    self.screen = Screen::GameOver { focused_index: 0 };
                } else if input.keys.escape {
                    self.screen = Screen::Paused { field, focused_index: 0 };
                } else {
                    self.screen = Screen::Playing(field);
                    cmds.push(Command::DrawFieldState);
                }
            },
            _ => {
                self.screen = scr;
            },
        }
        cmds
    }

    /// One frame, with `fresh` as the seed of a new game that carries none
    /// over.
    pub fn step_with_seed(&mut self, input: FrameInput, fresh: u64) -> (cmds: Vec<Command>)
        requires
            old(self).wf(),
            step_allowed(old(self)@, input),
        ensures
            (final(self)@, cmds@) == step_spec(old(self)@, input, fresh),
            final(self).wf(),
    {
        let mut cmds: Vec<Command> = Vec::new();
        cmds.push(Command::SetLang(self.settings.lang));
        cmds.push(Command::DrawBackground);
        cmds.push(Command::DrawField);
        let ghost pre = cmds@;
        let kind: usize = match &self.screen {
            Screen::Title => 0,
            Screen::Playing(_) => 1,
            Screen::Paused { .. } => 2,
            Screen::GameOver { .. } => 3,
            Screen::Settings => 4,
        };
        let fi: usize = match &self.screen {
            Screen::GameOver { focused_index } => *focused_index,
            _ => 0,
        };
        let mut rest = if kind == 0 {
            self.update_title(input, fresh)
        } else if kind == 1 {
            self.update_playing(input)
        } else if kind == 2 {
            self.update_paused(input, fresh)
        } else if kind == 3 {
            self.update_game_over(fi, input, fresh)
        } else {
            self.update_settings(input)
        };
        let ghost r = rest@;
        cmds.append(&mut rest);
        assert(cmds@ =~= pre + r);
        cmds
    }

    /// Whether the seed of this frame's new game, if it starts one, has to
    /// be drawn afresh.
    fn needs_fresh_seed(&self, input: FrameInput) -> (r: bool)
        requires
            self.wf(),
        ensures
            r == (game_start(self@, input) == Some(None::<u64>)),
    {
        let activate = input.keys.enter || input.keys.space;
        match &self.screen {
            Screen::Title => activate,
            Screen::GameOver { focused_index } => {
                let f2 = move_focus(*focused_index, input.keys, 3);
                !input.keys.escape && activate && (f2 == 0 || (f2 == 1 && self.last_seed.is_none()))
            },
            Screen::Paused { focused_index, .. } => {
                let f2 = move_focus(*focused_index, input.keys, 4);
                !input.keys.escape && activate && (f2 == 1 || (f2 == 2 && self.last_seed.is_none()))
            },
            _ => false,
        }
    }

    /// One frame: a new game without a seed to repeat draws its seed from
    /// macroquad's generator (two `u32` draws, high half first).
    pub fn step(&mut self, input: FrameInput) -> (cmds: Vec<Command>)
        requires
            old(self).wf(),
            step_allowed(old(self)@, input),
        ensures
            exists|fresh: u64| (final(self)@, cmds@) == step_spec(old(self)@, input, fresh),
            final(self).wf(),
    {
        let fresh: u64 = if self.needs_fresh_seed(input) {
            let hi = random_u32() as u64;
            let lo = random_u32() as u64;
            (hi << 32u64) | lo
        } else {
            0
        };
        self.step_with_seed(input, fresh)
    }

    /// Whether a frame may run: a game in progress may run its frame and a
    /// new game has a colour to deal.
    pub fn can_step(&self, input: FrameInput) -> (r: bool)
        requires
            self.wf(),
        ensures
            r == step_allowed(self@, input),
    {
        let ok_play = match &self.screen {
            Screen::Playing(f) => f.can_tick(&self.ctx, input.now, input.game),
            _ => true,
        };
        let activate = input.keys.enter || input.keys.space;
        let starts = match &self.screen {
            Screen::Title => activate,
            Screen::GameOver { focused_index } => {
                let f2 = move_focus(*focused_index, input.keys, 3);
                !input.keys.escape && activate && (f2 == 0 || f2 == 1)
            },
            Screen::Paused { focused_index, .. } => {
                let f2 = move_focus(*focused_index, input.keys, 4);
                !input.keys.escape && activate && (f2 == 1 || f2 == 2)
            },
            _ => false,
        };
        ok_play && (!starts || self.settings.puyo_colors >= 1)
    }
}

} // verus!
