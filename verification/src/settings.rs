use vstd::prelude::*;
use crate::localization::Lang;
use vstd::string::*;

verus! {

/// Number of focusable widgets on the settings screen.
pub const WIDGET_COUNT: usize = 6;

/// Volume change per frame while an arrow key is held, in thousandths.
pub const VOLUME_STEP: u32 = 5;

/// Full volume, in thousandths.
pub const VOLUME_MAX: u32 = 1000;

/// A decimal digit.
pub open spec fn is_digit(c: char) -> bool {
    '0' <= c <= '9'
}

/// The value of a string of decimal digits, the empty string counting zero.
pub open spec fn digits_value(s: Seq<char>) -> int
    decreases s.len(),
{
    if s.len() == 0 {
        0
    } else {
        digits_value(s.drop_last()) * 10 + (s.last() as int - '0' as int)
    }
}

/// The text after an optional leading `+`.
pub open spec fn unsigned_part(s: Seq<char>) -> Seq<char> {
    if s.len() > 0 && s[0] == '+' {
        s.skip(1)
    } else {
        s
    }
}

/// Every character is a decimal digit.
pub open spec fn all_digits(d: Seq<char>) -> bool {
    forall|i: int| 0 <= i < d.len() ==> is_digit(#[trigger] d[i])
}

/// A stored count read back as `usize` parses it: an optional `+`, then one
/// or more decimal digits and nothing else, with a value that fits in
/// `usize`.
pub open spec fn parsed_count(s: Seq<char>) -> Option<usize> {
    let d = unsigned_part(s);
    if d.len() > 0 && all_digits(d) && digits_value(d) <= usize::MAX {
        Some(digits_value(d) as usize)
    } else {
        None
    }
}

/// A longer run of digits has at least the value of its first part.
proof fn lemma_digits_grow(s: Seq<char>, j: int, k: int)
    requires
        0 <= j <= k <= s.len(),
        forall|i: int| 0 <= i < s.len() ==> is_digit(#[trigger] s[i]),
    ensures
        0 <= digits_value(s.take(j)) <= digits_value(s.take(k)),
    decreases k - j,
{
    if j < k {
        lemma_digits_grow(s, j, k - 1);
        assert(s.take(k).drop_last() =~= s.take(k - 1));
        assert(is_digit(s[k - 1]));
    } else {
        lemma_digits_nonneg(s.take(j));
    }
}

proof fn lemma_digits_nonneg(s: Seq<char>)
    requires
        forall|i: int| 0 <= i < s.len() ==> is_digit(#[trigger] s[i]),
    ensures
        digits_value(s) >= 0,
    decreases s.len(),
{
    if s.len() > 0 {
        lemma_digits_nonneg(s.drop_last());
        assert(is_digit(s[s.len() - 1]));
    }
}

/// Reads back a stored count.
pub fn parse_count(s: &str) -> (r: Option<usize>)
    ensures
        r == parsed_count(s@),
{
    let n = s.unicode_len();
    let start: usize = if n > 0 && s.get_char(0) == '+' {
        1
    } else {
        0
    };
    let ghost d = unsigned_part(s@);
    assert(d =~= s@.skip(start as int));
    if start == n {
        return None;
    }
    let mut acc: usize = 0;
    let mut i: usize = start;
    while i < n
        invariant
            n == s@.len(),
            start <= i <= n,
            d =~= s@.skip(start as int),
            d == unsigned_part(s@),
            d.len() == n - start,
            forall|j: int| 0 <= j < i - start ==> is_digit(#[trigger] d[j]),
            acc == digits_value(d.take(i - start)),
        decreases n - i,
    {
        let c = s.get_char(i);
        assert(c == d[i - start]);
        if !('0' <= c && c <= '9') {
            assert(!is_digit(d[i - start]));
            assert(!all_digits(d));
            return None;
        }
        let v = (c as u32 - '0' as u32) as usize;
        proof {
            assert(d.take(i - start + 1).drop_last() =~= d.take(i - start));
            assert(d.take(i - start + 1).last() == c);
            assert(digits_value(d.take(i - start + 1)) == acc * 10 + v);
        }
        let next = match acc.checked_mul(10) {
            Some(t) => t.checked_add(v),
            None => None,
        };
        match next {
            Some(t) => {
                acc = t;
            },
            None => {
                proof {
                    assert(acc * 10 + v > usize::MAX);
                    if all_digits(d) {
                        lemma_digits_grow(d, i - start + 1, d.len() as int);
                        assert(d.take(d.len() as int) =~= d);
                        assert(digits_value(d) > usize::MAX);
                    }
                }
                return None;
            },
        }
        i = i + 1;
    }
    assert(d.take(n - start) =~= d);
    Some(acc)
}

/// Game settings. Volumes are kept in thousandths of full volume.
#[derive(Clone, Copy, PartialEq, Eq, Debug, Structural)]
pub struct Settings {
    /// number of puyo colours in play (3 to 5)
    pub puyo_colors: usize,
    /// music volume, 0 to 1000
    pub bgm_volume: u32,
    /// sound effect volume, 0 to 1000
    pub se_volume: u32,
    /// display language
    pub lang: Lang,
    /// the credits page is shown (not stored)
    pub showing_credits: bool,
    /// the music test is playing on the settings screen (not stored)
    pub test_bgm_active: bool,
    /// the focused widget on the settings screen (not stored)
    pub focused_index: usize,
    /// the language picker is open (not stored)
    pub showing_language_picker: bool,
    /// the choice in the language picker (0 = English, 1 = Japanese)
    pub lang_picker_index: usize,
}

/// Input of the settings screen, read from the keyboard by the caller.
#[derive(Clone, Copy, PartialEq, Eq, Debug, Default, Structural)]
pub struct SettingsInput {
    pub navigate_prev: bool,
    pub navigate_next: bool,
    pub left_pressed: bool,
    pub left_held: bool,
    pub right_pressed: bool,
    pub right_held: bool,
    pub activate: bool,
}

/// What the settings screen asks its caller to do.
#[derive(Clone, Copy, PartialEq, Eq, Debug, Structural)]
pub enum SettingsEvent {
    /// play the sound effect once at the chosen volume
    TestSe,
    /// leave the settings screen
    Close,
}

/// The settings read back from storage, each falling back to its default:
/// four colours, half volumes, English.
pub open spec fn stored_settings(
    puyo_colors: Option<usize>,
    bgm_volume: Option<u32>,
    se_volume: Option<u32>,
    lang: Option<Lang>,
) -> Settings {
    Settings {
        puyo_colors: match puyo_colors {
            Some(n) => n,
            None => 4,
        },
        bgm_volume: match bgm_volume {
            Some(v) => v,
            None => 500,
        },
        se_volume: match se_volume {
            Some(v) => v,
            None => 500,
        },
        lang: match lang {
            Some(l) => l,
            None => Lang::En,
        },
        showing_credits: false,
        test_bgm_active: false,
        focused_index: 0,
        showing_language_picker: false,
        lang_picker_index: 0,
    }
}

/// A volume raised by one step, capped at full volume.
pub open spec fn volume_up(v: u32) -> u32 {
    if v + VOLUME_STEP > VOLUME_MAX {
        VOLUME_MAX
    } else {
        (v + VOLUME_STEP) as u32
    }
}

/// A volume lowered by one step, not below silence.
pub open spec fn volume_down(v: u32) -> u32 {
    if v < VOLUME_STEP {
        0
    } else {
        (v - VOLUME_STEP) as u32
    }
}

/// The settings after the focus moved, before the focused widget acts.
pub open spec fn after_navigation(s: Settings, input: SettingsInput) -> Settings {
    let s1 = if input.navigate_prev {
        Settings {
            focused_index: ((s.focused_index + WIDGET_COUNT - 1) % (WIDGET_COUNT as int)) as usize,
            test_bgm_active: false,
            ..s
        }
    } else {
        s
    };
    if input.navigate_next {
        Settings {
            focused_index: ((s1.focused_index + 1) % (WIDGET_COUNT as int)) as usize,
            test_bgm_active: false,
            ..s1
        }
    } else {
        s1
    }
}

/// The settings and the request that one frame of input on the settings
/// screen leads to.
pub open spec fn settings_step(s: Settings, input: SettingsInput) -> (Settings, Option<SettingsEvent>) {
    if s.showing_credits {
        if input.activate {
            (Settings { showing_credits: false, focused_index: 0, ..s }, None)
        } else {
            (s, None)
        }
    } else if s.showing_language_picker {
        let toggled = input.navigate_prev || input.navigate_next || input.left_pressed
            || input.right_pressed;
        let s1 = if toggled {
            Settings { lang_picker_index: (1 - s.lang_picker_index) as usize, ..s }
        } else {
            s
        };
        if input.activate {
            (
                Settings {
                    lang: if s1.lang_picker_index == 0 { Lang::En } else { Lang::Ja },
                    showing_language_picker: false,
                    ..s1
                },
                None,
            )
        } else {
            (s1, None)
        }
    } else {
        widget_step(after_navigation(s, input), input)
    }
}

/// What the focused widget does with one frame of input.
pub open spec fn widget_step(s1: Settings, input: SettingsInput) -> (Settings, Option<SettingsEvent>) {
    if s1.focused_index == 0 {
        let s2 = if input.right_pressed && s1.puyo_colors < 5 {
            Settings { puyo_colors: (s1.puyo_colors + 1) as usize, ..s1 }
        } else {
            s1
        };
        let s3 = if input.left_pressed && s2.puyo_colors > 3 {
            Settings { puyo_colors: (s2.puyo_colors - 1) as usize, ..s2 }
        } else {
            s2
        };
        (s3, None)
    } else if s1.focused_index == 1 {
        let s2 = if input.right_held {
            Settings { bgm_volume: volume_up(s1.bgm_volume), ..s1 }
        } else {
            s1
        };
        let s3 = if input.left_held {
            Settings { bgm_volume: volume_down(s2.bgm_volume), ..s2 }
        } else {
            s2
        };
        if input.activate {
            (Settings { test_bgm_active: !s3.test_bgm_active, ..s3 }, None)
        } else {
            (s3, None)
        }
    } else if s1.focused_index == 2 {
        let s2 = if input.right_held {
            Settings { se_volume: volume_up(s1.se_volume), ..s1 }
        } else {
            s1
        };
        let s3 = if input.left_held {
            Settings { se_volume: volume_down(s2.se_volume), ..s2 }
        } else {
            s2
        };
        if input.activate {
            (s3, Some(SettingsEvent::TestSe))
        } else {
            (s3, None)
        }
    } else if s1.focused_index == 3 {
        if input.activate {
            (
                Settings {
                    lang_picker_index: match s1.lang {
                        Lang::En => 0,
                        Lang::Ja => 1,
                    },
                    showing_language_picker: true,
                    ..s1
                },
                None,
            )
        } else {
            (s1, None)
        }
    } else if s1.focused_index == 4 {
        if input.activate {
            (Settings { showing_credits: true, focused_index: 0, ..s1 }, None)
        } else {
            (s1, None)
        }
    } else if s1.focused_index == 5 {
        if input.activate {
            (s1, Some(SettingsEvent::Close))
        } else {
            (s1, None)
        }
    } else {
        (s1, None)
    }
}

/// The inputs on which the settings screen's arithmetic stays in range:
/// the focus index can take the wrap-around step, and the language picker
/// choice is 0 or 1 when it is toggled.
pub open spec fn settings_input_ok(s: Settings, input: SettingsInput) -> bool {
    &&& !s.showing_credits && s.showing_language_picker && (input.navigate_prev
        || input.navigate_next || input.left_pressed || input.right_pressed)
        ==> s.lang_picker_index <= 1
    &&& !s.showing_credits && !s.showing_language_picker && input.navigate_prev
        ==> s.focused_index + WIDGET_COUNT <= usize::MAX
    &&& !s.showing_credits && !s.showing_language_picker && input.navigate_next
        && !input.navigate_prev ==> s.focused_index + 1 <= usize::MAX
}

/// The settings a player can reach: colours 3 to 5, volumes at most full,
/// a focus on one of the widgets and a picker choice of 0 or 1.
pub open spec fn settings_in_range(s: Settings) -> bool {
    &&& 3 <= s.puyo_colors <= 5
    &&& s.bgm_volume <= VOLUME_MAX
    &&& s.se_volume <= VOLUME_MAX
    &&& s.focused_index < WIDGET_COUNT
    &&& s.lang_picker_index <= 1
}

/// Whatever the input, the settings screen keeps the settings in range.
pub proof fn lemma_settings_stay_in_range(s: Settings, input: SettingsInput)
    requires
        settings_in_range(s),
    ensures
        settings_input_ok(s, input),
        settings_in_range(settings_step(s, input).0),
{
}

/// The picker opens on the language in use, so opening it and confirming at
/// once keeps the language.
pub proof fn lemma_picker_opens_on_current_language(s: Settings)
    requires
        !s.showing_credits,
        !s.showing_language_picker,
        s.focused_index == 3,
    ensures
        ({
            let input = SettingsInput {
                navigate_prev: false,
                navigate_next: false,
                left_pressed: false,
                left_held: false,
                right_pressed: false,
                right_held: false,
                activate: true,
            };
            let opened = settings_step(s, input).0;
            opened.showing_language_picker && settings_step(opened, input).0.lang == s.lang
        }),
{
}

/// The screen state a player can reach: a focus on one of the widgets and a
/// picker choice of 0 or 1.
pub open spec fn ui_in_range(s: Settings) -> bool {
    &&& s.focused_index < WIDGET_COUNT
    &&& s.lang_picker_index <= 1
}

/// Whatever the input, the settings screen keeps its screen state in range,
/// and its arithmetic never overflows there.
pub proof fn lemma_ui_stays_in_range(s: Settings, input: SettingsInput)
    requires
        ui_in_range(s),
    ensures
        settings_input_ok(s, input),
        ui_in_range(settings_step(s, input).0),
        s.puyo_colors >= 1 ==> settings_step(s, input).0.puyo_colors >= 1,
{
}

impl Settings {
    /// The settings made from the values found in storage, with the
    /// defaults for those that are missing and the screen state reset.
    pub fn from_stored(
        puyo_colors: Option<usize>,
        bgm_volume: Option<u32>,
        se_volume: Option<u32>,
        lang: Option<Lang>,
    ) -> (s: Settings)
        ensures
            s == stored_settings(puyo_colors, bgm_volume, se_volume, lang),
    {
        Settings {
            puyo_colors: match puyo_colors {
                Some(n) => n,
                None => 4,
            },
            bgm_volume: match bgm_volume {
                Some(v) => v,
                None => 500,
            },
            se_volume: match se_volume {
                Some(v) => v,
                None => 500,
            },
            lang: match lang {
                Some(l) => l,
                None => Lang::En,
            },
            showing_credits: false,
            test_bgm_active: false,
            focused_index: 0,
            showing_language_picker: false,
            lang_picker_index: 0,
        }
    }

    /// Handles one frame of input on the settings screen; requests that need
    /// the caller (a test sound, closing the screen) come back as an event.
    pub fn handle_input(&mut self, input: SettingsInput) -> (r: Option<SettingsEvent>)
        requires
            settings_input_ok(*old(self), input),
        ensures
            (*final(self), r) == settings_step(*old(self), input),
    {
        if self.showing_credits {
            if input.activate {
                self.showing_credits = false;
                self.focused_index = 0;
            }
            return None;
        }
        if self.showing_language_picker {
            if input.navigate_prev || input.navigate_next || input.left_pressed
                || input.right_pressed {
                self.lang_picker_index = 1 - self.lang_picker_index;
            }
            if input.activate {
                self.lang = if self.lang_picker_index == 0 {
                    Lang::En
                } else {
                    Lang::Ja
                };
                self.showing_language_picker = false;
            }
            return None;
        }
        self.navigate(input);
        self.apply_widget(input)
    }

    /// Moves the focus for one frame of input.
    fn navigate(&mut self, input: SettingsInput)
        requires
            input.navigate_prev ==> old(self).focused_index + WIDGET_COUNT <= usize::MAX,
            input.navigate_next && !input.navigate_prev ==> old(self).focused_index + 1
                <= usize::MAX,
        ensures
            *final(self) == after_navigation(*old(self), input),
    {
        if input.navigate_prev {
            self.focused_index = (self.focused_index + WIDGET_COUNT - 1) % WIDGET_COUNT;
            self.test_bgm_active = false;
        }
        if input.navigate_next {
            self.focused_index = (self.focused_index + 1) % WIDGET_COUNT;
            self.test_bgm_active = false;
        }
    }

    /// Lets the focused widget act on one frame of input.
    fn apply_widget(&mut self, input: SettingsInput) -> (r: Option<SettingsEvent>)
        ensures
            (*final(self), r) == widget_step(*old(self), input),
    {
        if self.focused_index == 0 {
            if input.right_pressed && self.puyo_colors < 5 {
                self.puyo_colors = self.puyo_colors + 1;
            }
            if input.left_pressed && self.puyo_colors > 3 {
                self.puyo_colors = self.puyo_colors - 1;
            }
        } else if self.focused_index == 1 {
            if input.right_held {
                self.bgm_volume = step_up(self.bgm_volume);
            }
            if input.left_held {
                self.bgm_volume = step_down(self.bgm_volume);
            }
            if input.activate {
                self.test_bgm_active = !self.test_bgm_active;
            }
        } else if self.focused_index == 2 {
            if input.right_held {
                self.se_volume = step_up(self.se_volume);
            }
            if input.left_held {
                self.se_volume = step_down(self.se_volume);
            }
            if input.activate {
                return Some(SettingsEvent::TestSe);
            }
        } else if self.focused_index == 3 {
            if input.activate {
                self.lang_picker_index = match self.lang {
                    Lang::En => 0,
                    Lang::Ja => 1,
                };
                self.showing_language_picker = true;
            }
        } else if self.focused_index == 4 {
            if input.activate {
                self.showing_credits = true;
                self.focused_index = 0;
            }
        } else if self.focused_index == 5 {
            if input.activate {
                return Some(SettingsEvent::Close);
            }
        }
        None
    }

    /// Resets the screen state when the settings screen is left; the stored
    /// values stay.
    pub fn reset_ui_state(&mut self)
        ensures
            *final(self) == (Settings {
                test_bgm_active: false,
                showing_credits: false,
                showing_language_picker: false,
                focused_index: 0,
                ..*old(self)
            }),
    {
        self.test_bgm_active = false;
        self.showing_credits = false;
        self.showing_language_picker = false;
        self.focused_index = 0;
    }
}

/// One volume step up, capped at full volume.
fn step_up(v: u32) -> (r: u32)
    ensures
        r == volume_up(v),
{
    if v > VOLUME_MAX - VOLUME_STEP {
        VOLUME_MAX
    } else {
        v + VOLUME_STEP
    }
}

/// One volume step down, not below silence.
fn step_down(v: u32) -> (r: u32)
    ensures
        r == volume_down(v),
{
    if v < VOLUME_STEP {
        0
    } else {
        v - VOLUME_STEP
    }
}

} // verus!
