use vstd::prelude::*;
use vstd::string::*;

verus! {
/// Display language, kept in the settings.
#[derive(Clone, Copy, PartialEq, Eq, Debug, Structural)]
pub enum Lang {
    En,
    Ja,
}

/// The short identifier a language is stored under.
pub open spec fn lang_id(l: Lang) -> Seq<char> {
    match l {
        Lang::En => "en"@,
        Lang::Ja => "ja"@,
    }
}

/// The language a stored identifier names, if any.
pub open spec fn lang_of_id(s: Seq<char>) -> Option<Lang> {
    if s == "en"@ {
        Some(Lang::En)
    } else if s == "ja"@ {
        Some(Lang::Ja)
    } else {
        None
    }
}

/// A language's name for itself.
pub open spec fn lang_display_name(l: Lang) -> Seq<char> {
    match l {
        Lang::En => "English"@,
        Lang::Ja => "日本語"@,
    }
}

impl Lang {
    /// Short identifier used when the language is stored.
    pub fn id(self) -> (r: &'static str)
        ensures
            r@ == lang_id(self),
    {
        match self {
            Lang::En => "en",
            Lang::Ja => "ja",
        }
    }

    /// The language stored under an identifier; `None` for an unknown one.
    pub fn from_id(s: &str) -> (r: Option<Self>)
        ensures
            r == lang_of_id(s@),
    {
        if str_equal(s, "en") {
            Some(Lang::En)
        } else if str_equal(s, "ja") {
            Some(Lang::Ja)
        } else {
            None
        }
    }

    /// The language's own name, shown on the settings screen.
    pub fn display_name(self) -> (r: &'static str)
        ensures
            r@ == lang_display_name(self),
    {
        match self {
            Lang::En => "English",
            Lang::Ja => "日本語",
        }
    }
}

/// Reading back the identifier a language is stored under gives that
/// language, and no two languages share an identifier.
pub proof fn lemma_id_round_trip(l: Lang)
    ensures
        lang_of_id(lang_id(l)) == Some(l),
{
    reveal_strlit("en");
    reveal_strlit("ja");
    assert("ja"@[1] != "en"@[1]);
}

/// Character-wise equality of two strings.
fn str_equal(a: &str, b: &str) -> (r: bool)
    ensures
        r == (a@ == b@),
{
    let n = a.unicode_len();
    let m = b.unicode_len();
    if n != m {
        return false;
    }
    let mut i: usize = 0;
    while i < n
        invariant
            n == a@.len(),
            m == b@.len(),
            n == m,
            i <= n,
            forall|j: int| 0 <= j < i ==> a@[j] == b@[j],
        decreases n - i,
    {
        if a.get_char(i) != b.get_char(i) {
            return false;
        }
        i = i + 1;
    }
    assert(a@ =~= b@);
    true
}

/// Every text shown on screen, in one language.
pub struct Strings {
    /// title screen: the start prompt
    pub title_press_start: &'static str,
    /// title screen: how to open the settings
    pub title_press_settings: &'static str,
    /// title screen: the move keys
    pub title_hint_move: &'static str,
    /// title screen: the soft drop key
    pub title_hint_softdrop: &'static str,
    /// title screen: the left rotation key
    pub title_hint_rotate_left: &'static str,
    /// title screen: the right rotation key
    pub title_hint_rotate_right: &'static str,
    /// pause menu heading
    pub pause_title: &'static str,
    /// menu item: resume play
    pub menu_resume: &'static str,
    /// menu item: a new game
    pub menu_retry: &'static str,
    /// menu item: a new game with the same pairs
    pub menu_retry_same: &'static str,
    /// menu item: back to the title
    pub menu_back_to_title: &'static str,
    /// key hint under the pause menu
    pub menu_hint_pause: &'static str,
    /// key hint under the game-over menu
    pub menu_hint_gameover: &'static str,
    /// settings screen heading
    pub settings_title: &'static str,
    /// settings label: number of colours
    pub settings_puyo_colors: &'static str,
    /// settings label: music volume
    pub settings_bgm_volume: &'static str,
    /// settings label: sound effect volume
    pub settings_se_volume: &'static str,
    /// settings label: language
    pub settings_language: &'static str,
    /// settings label: credits
    pub settings_credits: &'static str,
    /// settings button: leave
    pub settings_back: &'static str,
    /// settings hint part: moving the focus
    pub hint_navigate: &'static str,
    /// settings hint part: changing a value
    pub hint_adjust: &'static str,
    /// settings hint part: leaving
    pub hint_back: &'static str,
    /// settings hint part: the confirm keys, put after a verb
    pub hint_enter_kw: &'static str,
    /// settings action: start the music test
    pub action_test_bgm: &'static str,
    /// settings action: stop the music test
    pub action_stop_bgm: &'static str,
    /// settings action: play the sound effect
    pub action_test_se: &'static str,
    /// settings action: open the language picker
    pub action_choose_language: &'static str,
    /// settings action: open the credits
    pub action_show_credits: &'static str,
    /// credits page: close it
    pub action_close: &'static str,
    /// credits page heading
    pub credits_title: &'static str,
    /// credits page: the music label
    pub credits_bgm_label: &'static str,
    /// credits page: the sound effects label
    pub credits_se_label: &'static str,
}

/// The English texts.
pub open spec fn en_strings() -> Strings {
    Strings {
        title_press_start: "PRESS ENTER or SPACE",
        title_press_settings: "Press S for Settings",
        title_hint_move: "Move: \u{2190} / \u{2192}",
        title_hint_softdrop: "Soft Drop: \u{2193}",
        title_hint_rotate_left: "Rotate Left: Z",
        title_hint_rotate_right: "Rotate Right: X",
        pause_title: "PAUSE",
        menu_resume: "Resume",
        menu_retry: "Retry",
        menu_retry_same: "Retry (same puyos)",
        menu_back_to_title: "Back to Title",
        menu_hint_pause: "\u{2191}/\u{2193} Select   Enter/Space Confirm   Esc Resume",
        menu_hint_gameover: "\u{2191}/\u{2193} Select   Enter/Space Confirm   Esc Title",
        settings_title: "Settings",
        settings_puyo_colors: "Puyo colors",
        settings_bgm_volume: "BGM volume",
        settings_se_volume: "SE volume",
        settings_language: "Language",
        settings_credits: "Credits",
        settings_back: "Back",
        hint_navigate: "Navigate: \u{2191} / \u{2193}",
        hint_adjust: "Adjust: \u{2190} / \u{2192}",
        hint_back: "Back: Esc",
        hint_enter_kw: "Enter / Space",
        action_test_bgm: "Test BGM",
        action_stop_bgm: "Stop BGM",
        action_test_se: "Test SE",
        action_choose_language: "Choose Language",
        action_show_credits: "Show Credits",
        action_close: "Close",
        credits_title: "Credits",
        credits_bgm_label: "BGM",
        credits_se_label: "SE",
    }
}

/// The Japanese texts.
pub open spec fn ja_strings() -> Strings {
    Strings {
        title_press_start: "ENTER または SPACE で開始",
        title_press_settings: "S キーで設定",
        title_hint_move: "移動: \u{2190} / \u{2192}",
        title_hint_softdrop: "落下加速: \u{2193}",
        title_hint_rotate_left: "左回転: Z",
        title_hint_rotate_right: "右回転: X",
        pause_title: "ポーズ",
        menu_resume: "続ける",
        menu_retry: "リトライ",
        menu_retry_same: "同じぷよでリトライ",
        menu_back_to_title: "タイトルに戻る",
        menu_hint_pause: "\u{2191}/\u{2193} 選択   Enter/Space 決定   Esc 再開",
        menu_hint_gameover: "\u{2191}/\u{2193} 選択   Enter/Space 決定   Esc タイトル",
        settings_title: "設定",
        settings_puyo_colors: "ぷよの色数",
        settings_bgm_volume: "BGM 音量",
        settings_se_volume: "効果音 音量",
        settings_language: "言語",
        settings_credits: "クレジット",
        settings_back: "戻る",
        hint_navigate: "移動: \u{2191} / \u{2193}",
        hint_adjust: "調整: \u{2190} / \u{2192}",
        hint_back: "戻る: Esc",
        hint_enter_kw: "Enter / Space",
        action_test_bgm: "BGM 再生",
        action_stop_bgm: "BGM 停止",
        action_test_se: "効果音 再生",
        action_choose_language: "言語を選ぶ",
        action_show_credits: "クレジットを開く",
        action_close: "閉じる",
        credits_title: "クレジット",
        credits_bgm_label: "BGM",
        credits_se_label: "SE",
    }
}

/// The texts of a language.
pub open spec fn strings_of(lang: Lang) -> Strings {
    match lang {
        Lang::En => en_strings(),
        Lang::Ja => ja_strings(),
    }
}

/// All display texts of a language.
pub fn strings(lang: Lang) -> (s: Strings)
    ensures
        s == strings_of(lang),
{
    match lang {
        Lang::En => Strings {
            title_press_start: "PRESS ENTER or SPACE",
            title_press_settings: "Press S for Settings",
            title_hint_move: "Move: \u{2190} / \u{2192}",
            title_hint_softdrop: "Soft Drop: \u{2193}",
            title_hint_rotate_left: "Rotate Left: Z",
            title_hint_rotate_right: "Rotate Right: X",
            pause_title: "PAUSE",
            menu_resume: "Resume",
            menu_retry: "Retry",
            menu_retry_same: "Retry (same puyos)",
            menu_back_to_title: "Back to Title",
            menu_hint_pause: "\u{2191}/\u{2193} Select   Enter/Space Confirm   Esc Resume",
            menu_hint_gameover: "\u{2191}/\u{2193} Select   Enter/Space Confirm   Esc Title",
            settings_title: "Settings",
            settings_puyo_colors: "Puyo colors",
            settings_bgm_volume: "BGM volume",
            settings_se_volume: "SE volume",
            settings_language: "Language",
            settings_credits: "Credits",
            settings_back: "Back",
            hint_navigate: "Navigate: \u{2191} / \u{2193}",
            hint_adjust: "Adjust: \u{2190} / \u{2192}",
            hint_back: "Back: Esc",
            hint_enter_kw: "Enter / Space",
            action_test_bgm: "Test BGM",
            action_stop_bgm: "Stop BGM",
            action_test_se: "Test SE",
            action_choose_language: "Choose Language",
            action_show_credits: "Show Credits",
            action_close: "Close",
            credits_title: "Credits",
            credits_bgm_label: "BGM",
            credits_se_label: "SE",
        },
        Lang::Ja => Strings {
            title_press_start: "ENTER または SPACE で開始",
            title_press_settings: "S キーで設定",
            title_hint_move: "移動: \u{2190} / \u{2192}",
            title_hint_softdrop: "落下加速: \u{2193}",
            title_hint_rotate_left: "左回転: Z",
            title_hint_rotate_right: "右回転: X",
            pause_title: "ポーズ",
            menu_resume: "続ける",
            menu_retry: "リトライ",
            menu_retry_same: "同じぷよでリトライ",
            menu_back_to_title: "タイトルに戻る",
            menu_hint_pause: "\u{2191}/\u{2193} 選択   Enter/Space 決定   Esc 再開",
            menu_hint_gameover: "\u{2191}/\u{2193} 選択   Enter/Space 決定   Esc タイトル",
            settings_title: "設定",
            settings_puyo_colors: "ぷよの色数",
            settings_bgm_volume: "BGM 音量",
            settings_se_volume: "効果音 音量",
            settings_language: "言語",
            settings_credits: "クレジット",
            settings_back: "戻る",
            hint_navigate: "移動: \u{2191} / \u{2193}",
            hint_adjust: "調整: \u{2190} / \u{2192}",
            hint_back: "戻る: Esc",
            hint_enter_kw: "Enter / Space",
            action_test_bgm: "BGM 再生",
            action_stop_bgm: "BGM 停止",
            action_test_se: "効果音 再生",
            action_choose_language: "言語を選ぶ",
            action_show_credits: "クレジットを開く",
            action_close: "閉じる",
            credits_title: "クレジット",
            credits_bgm_label: "BGM",
            credits_se_label: "SE",
        },
    }
}

/// The decimal digit character of a value below ten.
pub open spec fn digit_char(d: nat) -> char {
    if d == 0 {
        '0'
    } else if d == 1 {
        '1'
    } else if d == 2 {
        '2'
    } else if d == 3 {
        '3'
    } else if d == 4 {
        '4'
    } else if d == 5 {
        '5'
    } else if d == 6 {
        '6'
    } else if d == 7 {
        '7'
    } else if d == 8 {
        '8'
    } else {
        '9'
    }
}

/// The decimal notation of a natural number, without leading zeros.
pub open spec fn decimal(n: nat) -> Seq<char>
    decreases n,
{
    if n < 10 {
        seq![digit_char(n)]
    } else {
        decimal(n / 10).push(digit_char(n % 10))
    }
}

/// The chain counter text: "N Chain!" in English, "N連鎖" in Japanese.
pub open spec fn chain_text(count: u32, lang: Lang) -> Seq<char> {
    match lang {
        Lang::En => decimal(count as nat) + " Chain!"@,
        Lang::Ja => decimal(count as nat) + "連鎖"@,
    }
}

/// Builds the chain counter text for a language.
pub fn format_chain(count: u32, lang: Lang) -> (r: String)
    ensures
        r@ == chain_text(count, lang),
{
    let digits = decimal_text(count);
    match lang {
        Lang::En => digits.concat(" Chain!"),
        Lang::Ja => digits.concat("連鎖"),
    }
}

/// The one-character text of a decimal digit.
fn digit_text(d: u32) -> (r: &'static str)
    requires
        d < 10,
    ensures
        r@ == seq![digit_char(d as nat)],
{
    if d == 0 {
        proof { reveal_strlit("0"); }
        "0"
    } else if d == 1 {
        proof { reveal_strlit("1"); }
        "1"
    } else if d == 2 {
        proof { reveal_strlit("2"); }
        "2"
    } else if d == 3 {
        proof { reveal_strlit("3"); }
        "3"
    } else if d == 4 {
        proof { reveal_strlit("4"); }
        "4"
    } else if d == 5 {
        proof { reveal_strlit("5"); }
        "5"
    } else if d == 6 {
        proof { reveal_strlit("6"); }
        "6"
    } else if d == 7 {
        proof { reveal_strlit("7"); }
        "7"
    } else if d == 8 {
        proof { reveal_strlit("8"); }
        "8"
    } else {
        proof { reveal_strlit("9"); }
        "9"
    }
}

/// The decimal notation of a number, without sign or leading zeros.
fn decimal_text(n: u32) -> (r: String)
    ensures
        r@ == decimal(n as nat),
    decreases n,
{
    let d = digit_text(n % 10);
    if n < 10 {
        String::from_str(d)
    } else {
        let mut s = decimal_text(n / 10);
        s.append(d);
        s
    }
}

/// A digit string padded with leading zeros to at least `width` characters.
pub open spec fn zero_padded(digits: Seq<char>, width: nat) -> Seq<char> {
    if digits.len() >= width {
        digits
    } else {
        Seq::new((width - digits.len()) as nat, |i: int| '0') + digits
    }
}

/// The score as shown: at least eight digits, padded with zeros.
pub fn score_text(score: u32) -> (r: String)
    ensures
        r@ == zero_padded(decimal(score as nat), 8),
{
    let digits = decimal_text(score);
    let n = digits.as_str().unicode_len();
    if n >= 8 {
        return digits;
    }
    let mut out = String::from_str("");
    proof {
        reveal_strlit("");
    }
    let mut k: usize = 0;
    while k < 8 - n
        invariant
            n < 8,
            k <= 8 - n,
            out@ == Seq::new(k as nat, |i: int| '0'),
        decreases 8 - n - k,
    {
        out.append("0");
        proof {
            reveal_strlit("0");
        }
        k = k + 1;
        assert(out@ =~= Seq::new(k as nat, |i: int| '0'));
    }
    out.append(digits.as_str());
    out
}

} // verus!
