//! The keys the daemon knows, and the two ways one is named: by the scan code of an input
//! event and by a token of a configuration line.

use crate::text::{chars_of, same_chars};
use vstd::prelude::*;

verus! {

/// A key of the keyboard. The left and the right `Shift`, `Ctrl` and `Alt` are one key each.
/// `UK` stands for every scan code and every token that names no other key.
#[derive(Clone, Copy, Debug, PartialEq, Eq, Hash, Structural)]
pub enum Key {
    Num0,
    Num1,
    Num2,
    Num3,
    Num4,
    Num5,
    Num6,
    Num7,
    Num8,
    Num9,
    Dash,
    Tick,
    Equal,
    Dot,
    Comma,
    Slash,
    SemiColon,
    Apostrophe,
    BackSlash,
    LSquareBracket,
    RSquareBracket,
    A,
    B,
    C,
    D,
    E,
    F,
    G,
    H,
    I,
    J,
    K,
    L,
    M,
    N,
    O,
    P,
    Q,
    R,
    S,
    T,
    U,
    V,
    W,
    X,
    Y,
    Z,
    F1,
    F2,
    F3,
    F4,
    F5,
    F6,
    F7,
    F8,
    F9,
    F10,
    F11,
    F12,
    Up,
    Down,
    Left,
    Right,
    Alt,
    Ctrl,
    Shift,
    Super,
    Esc,
    Backspace,
    Return,
    Space,
    Tab,
    UK,
    XF86AudioRaiseVolume,
    XF86AudioLowerVolume,
    XF86AudioMute,
    XF86AudioPrev,
    XF86AudioNext,
    XF86AudioPlay,
    XF86AudioStop,
}

/// The result of `str::to_lowercase` on a text: its lowercase form under the Unicode rules.
pub uninterp spec fn lowercase(s: Seq<char>) -> Seq<char>;

/// `str::to_lowercase` returns the lowercase form of the text, which depends on the text alone.
pub assume_specification[ str::to_lowercase ](s: &str) -> (r: String)
    ensures
        r@ == lowercase(s@),
;

/// The key that a scan code stands for.
pub open spec fn key_of_code(code: u16) -> Key {
    match code {
        1 => Key::Esc,
        2 => Key::Num1,
        3 => Key::Num2,
        4 => Key::Num3,
        5 => Key::Num4,
        6 => Key::Num5,
        7 => Key::Num6,
        8 => Key::Num7,
        9 => Key::Num8,
        10 => Key::Num9,
        11 => Key::Num0,
        12 => Key::Dash,
        13 => Key::Equal,
        14 => Key::Backspace,
        15 => Key::Tab,
        16 => Key::Q,
        17 => Key::W,
        18 => Key::E,
        19 => Key::R,
        20 => Key::T,
        21 => Key::Y,
        22 => Key::U,
        23 => Key::I,
        24 => Key::O,
        25 => Key::P,
        26 => Key::LSquareBracket,
        27 => Key::RSquareBracket,
        28 => Key::Return,
        29 => Key::Ctrl,
        30 => Key::A,
        31 => Key::S,
        32 => Key::D,
        33 => Key::F,
        34 => Key::G,
        35 => Key::H,
        36 => Key::J,
        37 => Key::K,
        38 => Key::L,
        39 => Key::SemiColon,
        40 => Key::Apostrophe,
        41 => Key::Tick,
        42 => Key::Shift,
        43 => Key::BackSlash,
        44 => Key::Z,
        45 => Key::X,
        46 => Key::C,
        47 => Key::V,
        48 => Key::B,
        49 => Key::N,
        50 => Key::M,
        51 => Key::Comma,
        52 => Key::Dot,
        53 => Key::Slash,
        54 => Key::Shift,
        56 => Key::Alt,
        57 => Key::Space,
        59 => Key::F1,
        60 => Key::F2,
        61 => Key::F3,
        62 => Key::F4,
        63 => Key::F5,
        64 => Key::F6,
        65 => Key::F7,
        66 => Key::F8,
        67 => Key::F9,
        68 => Key::F10,
        87 => Key::F11,
        88 => Key::F12,
        97 => Key::Ctrl,
        100 => Key::Alt,
        103 => Key::Up,
        105 => Key::Left,
        106 => Key::Right,
        108 => Key::Down,
        113 => Key::XF86AudioMute,
        114 => Key::XF86AudioLowerVolume,
        115 => Key::XF86AudioRaiseVolume,
        125 => Key::Super,
        163 => Key::XF86AudioNext,
        164 => Key::XF86AudioPlay,
        165 => Key::XF86AudioPrev,
        166 => Key::XF86AudioStop,
        _ => Key::UK,
    }
}

/// The key that a name stands for, where the name is already in lowercase.
pub open spec fn named_key(name: Seq<char>) -> Option<Key> {
    if name == "alt"@ {
        Some(Key::Alt)
    } else if name == "ctrl"@ {
        Some(Key::Ctrl)
    } else if name == "shift"@ {
        Some(Key::Shift)
    } else if name == "super"@ {
        Some(Key::Super)
    } else if name == "esc"@ {
        Some(Key::Esc)
    } else if name == "backspace"@ {
        Some(Key::Backspace)
    } else if name == "return"@ {
        Some(Key::Return)
    } else if name == "space"@ {
        Some(Key::Space)
    } else if name == "tab"@ {
        Some(Key::Tab)
    } else if name == "f1"@ {
        Some(Key::F1)
    } else if name == "f2"@ {
        Some(Key::F2)
    } else if name == "f3"@ {
        Some(Key::F3)
    } else if name == "f4"@ {
        Some(Key::F4)
    } else if name == "f5"@ {
        Some(Key::F5)
    } else if name == "f6"@ {
        Some(Key::F6)
    } else if name == "f7"@ {
        Some(Key::F7)
    } else if name == "f8"@ {
        Some(Key::F8)
    } else if name == "f9"@ {
        Some(Key::F9)
    } else if name == "f10"@ {
        Some(Key::F10)
    } else if name == "f11"@ {
        Some(Key::F11)
    } else if name == "f12"@ {
        Some(Key::F12)
    } else if name == "up"@ {
        Some(Key::Up)
    } else if name == "down"@ {
        Some(Key::Down)
    } else if name == "left"@ {
        Some(Key::Left)
    } else if name == "right"@ {
        Some(Key::Right)
    } else if name == "xf86audiomute"@ {
        Some(Key::XF86AudioMute)
    } else if name == "xf86audiolowervolume"@ {
        Some(Key::XF86AudioLowerVolume)
    } else if name == "xf86audioraisevolume"@ {
        Some(Key::XF86AudioRaiseVolume)
    } else if name == "xf86audionext"@ {
        Some(Key::XF86AudioNext)
    } else if name == "xf86audioplay"@ {
        Some(Key::XF86AudioPlay)
    } else if name == "xf86audioprev"@ {
        Some(Key::XF86AudioPrev)
    } else if name == "xf86audiostop"@ {
        Some(Key::XF86AudioStop)
    } else {
        None
    }
}

/// The key that types the character `c`, with or without `Shift`.
pub open spec fn char_key(c: char) -> Key {
    match c {
        '`' | '~' => Key::Tick,
        '0' | ')' => Key::Num0,
        '1' | '!' => Key::Num1,
        '2' | '@' => Key::Num2,
        '3' | '#' => Key::Num3,
        '4' | '$' => Key::Num4,
        '5' | '%' => Key::Num5,
        '6' | '^' => Key::Num6,
        '7' | '&' => Key::Num7,
        '8' | '*' => Key::Num8,
        '9' | '(' => Key::Num9,
        '-' | '_' => Key::Dash,
        '=' | '+' => Key::Equal,
        '.' | '>' => Key::Dot,
        ',' | '<' => Key::Comma,
        '/' | '?' => Key::Slash,
        ';' | ':' => Key::SemiColon,
        '\'' | '"' => Key::Apostrophe,
        '\\' | '|' => Key::BackSlash,
        '[' | '{' => Key::LSquareBracket,
        ']' | '}' => Key::RSquareBracket,
        'a' | 'A' => Key::A,
        'b' | 'B' => Key::B,
        'c' | 'C' => Key::C,
        'd' | 'D' => Key::D,
        'e' | 'E' => Key::E,
        'f' | 'F' => Key::F,
        'g' | 'G' => Key::G,
        'h' | 'H' => Key::H,
        'i' | 'I' => Key::I,
        'j' | 'J' => Key::J,
        'k' | 'K' => Key::K,
        'l' | 'L' => Key::L,
        'm' | 'M' => Key::M,
        'n' | 'N' => Key::N,
        'o' | 'O' => Key::O,
        'p' | 'P' => Key::P,
        'q' | 'Q' => Key::Q,
        'r' | 'R' => Key::R,
        's' | 'S' => Key::S,
        't' | 'T' => Key::T,
        'u' | 'U' => Key::U,
        'v' | 'V' => Key::V,
        'w' | 'W' => Key::W,
        'x' | 'X' => Key::X,
        'y' | 'Y' => Key::Y,
        'z' | 'Z' => Key::Z,
        _ => Key::UK,
    }
}

/// Whether typing the character `c` takes `Shift` on a standard layout.
pub open spec fn needs_shift(c: char) -> bool {
    match c {
        '~' | ')' | '!' | '@' | '#' | '$' | '%' | '^' | '&' | '*' | '(' | '_' | '+' | '>' | '<'
        | '?' | ':' | '"' | '|' | '{' | '}' => true,
        'A'..='Z' => true,
        _ => false,
    }
}

/// The keys that one token of a key combination stands for, given the token and its
/// lowercase form. A name stands for its key, in any case. A single character stands for the
/// key that types it, after `Shift` where typing it takes `Shift`. The empty token stands for
/// nothing, and any other token for `UK`.
pub open spec fn keys_of_token(token: Seq<char>, lowered: Seq<char>) -> Seq<Key> {
    match named_key(lowered) {
        Some(key) => seq![key],
        None => if token.len() == 0 {
            seq![]
        } else if token.len() == 1 {
            if needs_shift(token[0]) {
                seq![Key::Shift, char_key(token[0])]
            } else {
                seq![char_key(token[0])]
            }
        } else {
            seq![Key::UK]
        },
    }
}

/// The keys that one token of a key combination stands for.
pub open spec fn token_keys(token: Seq<char>) -> Seq<Key> {
    keys_of_token(token, lowercase(token))
}

impl Key {
    /// Whether the key is one of the four modifiers.
    pub open spec fn modifier(self) -> bool {
        self == Key::Shift || self == Key::Ctrl || self == Key::Alt || self == Key::Super
    }

    /// Whether the key is one of the media-control keys, which are bound alone.
    pub open spec fn media_control(self) -> bool {
        self == Key::XF86AudioRaiseVolume || self == Key::XF86AudioLowerVolume || self
            == Key::XF86AudioMute || self == Key::XF86AudioPrev || self == Key::XF86AudioNext
            || self == Key::XF86AudioPlay || self == Key::XF86AudioStop
    }

    /// Whether the key can end a chord: any known key that is neither a modifier nor a
    /// media-control key.
    pub open spec fn action(self) -> bool {
        !self.modifier() && !self.media_control() && self != Key::UK
    }

    /// Whether the key is a modifier.
    pub fn is_modifier(&self) -> (r: bool)
        ensures
            r == self.modifier(),
    {
        match self {
            Key::Shift | Key::Ctrl | Key::Alt | Key::Super => true,
            _ => false,
        }
    }

    /// Whether the key is a media-control key.
    pub fn is_media_control(&self) -> (r: bool)
        ensures
            r == self.media_control(),
    {
        match self {
            Key::XF86AudioRaiseVolume
            | Key::XF86AudioLowerVolume
            | Key::XF86AudioMute
            | Key::XF86AudioPrev
            | Key::XF86AudioNext
            | Key::XF86AudioPlay
            | Key::XF86AudioStop => true,
            _ => false,
        }
    }

    /// Whether the key can end a chord.
    pub fn is_action(&self) -> (r: bool)
        ensures
            r == self.action(),
    {
        match self {
            Key::UK => false,
            _ => !self.is_modifier() && !self.is_media_control(),
        }
    }

    /// The key of a scan code. Codes that no key has give `UK`.
    pub fn from_code(code: u16) -> (key: Key)
        ensures
            key == key_of_code(code),
    {
        match code {
            1 => Key::Esc,
            2 => Key::Num1,
            3 => Key::Num2,
            4 => Key::Num3,
            5 => Key::Num4,
            6 => Key::Num5,
            7 => Key::Num6,
            8 => Key::Num7,
            9 => Key::Num8,
            10 => Key::Num9,
            11 => Key::Num0,
            12 => Key::Dash,
            13 => Key::Equal,
            14 => Key::Backspace,
            15 => Key::Tab,
            16 => Key::Q,
            17 => Key::W,
            18 => Key::E,
            19 => Key::R,
            20 => Key::T,
            21 => Key::Y,
            22 => Key::U,
            23 => Key::I,
            24 => Key::O,
            25 => Key::P,
            26 => Key::LSquareBracket,
            27 => Key::RSquareBracket,
            28 => Key::Return,
            29 => Key::Ctrl,
            30 => Key::A,
            31 => Key::S,
            32 => Key::D,
            33 => Key::F,
            34 => Key::G,
            35 => Key::H,
            36 => Key::J,
            37 => Key::K,
            38 => Key::L,
            39 => Key::SemiColon,
            40 => Key::Apostrophe,
            41 => Key::Tick,
            42 => Key::Shift,
            43 => Key::BackSlash,
            44 => Key::Z,
            45 => Key::X,
            46 => Key::C,
            47 => Key::V,
            48 => Key::B,
            49 => Key::N,
            50 => Key::M,
            51 => Key::Comma,
            52 => Key::Dot,
            53 => Key::Slash,
            54 => Key::Shift,
            56 => Key::Alt,
            57 => Key::Space,
            59 => Key::F1,
            60 => Key::F2,
            61 => Key::F3,
            62 => Key::F4,
            63 => Key::F5,
            64 => Key::F6,
            65 => Key::F7,
            66 => Key::F8,
            67 => Key::F9,
            68 => Key::F10,
            87 => Key::F11,
            88 => Key::F12,
            97 => Key::Ctrl,
            100 => Key::Alt,
            103 => Key::Up,
            105 => Key::Left,
            106 => Key::Right,
            108 => Key::Down,
            113 => Key::XF86AudioMute,
            114 => Key::XF86AudioLowerVolume,
            115 => Key::XF86AudioRaiseVolume,
            125 => Key::Super,
            163 => Key::XF86AudioNext,
            164 => Key::XF86AudioPlay,
            165 => Key::XF86AudioPrev,
            166 => Key::XF86AudioStop,
            _ => Key::UK,
        }
    }

    /// The key that a lowercase name stands for, if it is a name.
    pub fn from_name(name: &str) -> (key: Option<Key>)
        ensures
            key == named_key(name@),
    {
        let n = chars_of(name);
        if is_text(&n, "alt") {
            Some(Key::Alt)
        } else if is_text(&n, "ctrl") {
            Some(Key::Ctrl)
        } else if is_text(&n, "shift") {
            Some(Key::Shift)
        } else if is_text(&n, "super") {
            Some(Key::Super)
        } else if is_text(&n, "esc") {
            Some(Key::Esc)
        } else if is_text(&n, "backspace") {
            Some(Key::Backspace)
        } else if is_text(&n, "return") {
            Some(Key::Return)
        } else if is_text(&n, "space") {
            Some(Key::Space)
        } else if is_text(&n, "tab") {
            Some(Key::Tab)
        } else if is_text(&n, "f1") {
            Some(Key::F1)
        } else if is_text(&n, "f2") {
            Some(Key::F2)
        } else if is_text(&n, "f3") {
            Some(Key::F3)
        } else if is_text(&n, "f4") {
            Some(Key::F4)
        } else if is_text(&n, "f5") {
            Some(Key::F5)
        } else if is_text(&n, "f6") {
            Some(Key::F6)
        } else if is_text(&n, "f7") {
            Some(Key::F7)
        } else if is_text(&n, "f8") {
            Some(Key::F8)
        } else if is_text(&n, "f9") {
            Some(Key::F9)
        } else if is_text(&n, "f10") {
            Some(Key::F10)
        } else if is_text(&n, "f11") {
            Some(Key::F11)
        } else if is_text(&n, "f12") {
            Some(Key::F12)
        } else if is_text(&n, "up") {
            Some(Key::Up)
        } else if is_text(&n, "down") {
            Some(Key::Down)
        } else if is_text(&n, "left") {
            Some(Key::Left)
        } else if is_text(&n, "right") {
            Some(Key::Right)
        } else if is_text(&n, "xf86audiomute") {
            Some(Key::XF86AudioMute)
        } else if is_text(&n, "xf86audiolowervolume") {
            Some(Key::XF86AudioLowerVolume)
        } else if is_text(&n, "xf86audioraisevolume") {
            Some(Key::XF86AudioRaiseVolume)
        } else if is_text(&n, "xf86audionext") {
            Some(Key::XF86AudioNext)
        } else if is_text(&n, "xf86audioplay") {
            Some(Key::XF86AudioPlay)
        } else if is_text(&n, "xf86audioprev") {
            Some(Key::XF86AudioPrev)
        } else if is_text(&n, "xf86audiostop") {
            Some(Key::XF86AudioStop)
        } else {
            None
        }
    }

    /// The key that types a character, and whether typing it takes `Shift`.
    pub fn from_char(c: char) -> (r: (Key, bool))
        ensures
            r.0 == char_key(c),
            r.1 == needs_shift(c),
    {
        let key = match c {
            '`' | '~' => Key::Tick,
            '0' | ')' => Key::Num0,
            '1' | '!' => Key::Num1,
            '2' | '@' => Key::Num2,
            '3' | '#' => Key::Num3,
            '4' | '$' => Key::Num4,
            '5' | '%' => Key::Num5,
            '6' | '^' => Key::Num6,
            '7' | '&' => Key::Num7,
            '8' | '*' => Key::Num8,
            '9' | '(' => Key::Num9,
            '-' | '_' => Key::Dash,
            '=' | '+' => Key::Equal,
            '.' | '>' => Key::Dot,
            ',' | '<' => Key::Comma,
            '/' | '?' => Key::Slash,
            ';' | ':' => Key::SemiColon,
            '\'' | '"' => Key::Apostrophe,
            '\\' | '|' => Key::BackSlash,
            '[' | '{' => Key::LSquareBracket,
            ']' | '}' => Key::RSquareBracket,
            'a' | 'A' => Key::A,
            'b' | 'B' => Key::B,
            'c' | 'C' => Key::C,
            'd' | 'D' => Key::D,
            'e' | 'E' => Key::E,
            'f' | 'F' => Key::F,
            'g' | 'G' => Key::G,
            'h' | 'H' => Key::H,
            'i' | 'I' => Key::I,
            'j' | 'J' => Key::J,
            'k' | 'K' => Key::K,
            'l' | 'L' => Key::L,
            'm' | 'M' => Key::M,
            'n' | 'N' => Key::N,
            'o' | 'O' => Key::O,
            'p' | 'P' => Key::P,
            'q' | 'Q' => Key::Q,
            'r' | 'R' => Key::R,
            's' | 'S' => Key::S,
            't' | 'T' => Key::T,
            'u' | 'U' => Key::U,
            'v' | 'V' => Key::V,
            'w' | 'W' => Key::W,
            'x' | 'X' => Key::X,
            'y' | 'Y' => Key::Y,
            'z' | 'Z' => Key::Z,
            _ => Key::UK,
        };
        let shift = match c {
            '~' | ')' | '!' | '@' | '#' | '$' | '%' | '^' | '&' | '*' | '(' | '_' | '+' | '>'
            | '<' | '?' | ':' | '"' | '|' | '{' | '}' => true,
            'A'..='Z' => true,
            _ => false,
        };
        (key, shift)
    }

    /// The keys of a token whose lowercase form is already at hand.
    pub fn from_lowered(token: &str, lowered: &str) -> (keys: Vec<Key>)
        ensures
            keys@ == keys_of_token(token@, lowered@),
    {
        let mut keys: Vec<Key> = Vec::new();
        match Key::from_name(lowered) {
            Some(key) => {
                keys.push(key);
            },
            None => {
                let t = chars_of(token);
                if t.len() == 1 {
                    let (key, shift) = Key::from_char(t[0]);
                    if shift {
                        keys.push(Key::Shift);
                    }
                    keys.push(key);
                } else if t.len() > 1 {
                    keys.push(Key::UK);
                }
            },
        }
        assert(keys@ =~= keys_of_token(token@, lowered@));
        keys
    }

    /// The keys that one token of a key combination stands for. No token is refused: one
    /// that names nothing gives `UK`.
    pub fn from_str(token: &str) -> (keys: Vec<Key>)
        ensures
            keys@ == token_keys(token@),
    {
        let lowered = token.to_lowercase();
        Key::from_lowered(token, lowered.as_str())
    }
}

/// Whether the characters `s` are the text `name`.
fn is_text(s: &Vec<char>, name: &str) -> (r: bool)
    ensures
        r == (s@ == name@),
{
    let n = chars_of(name);
    same_chars(s.as_slice(), n.as_slice())
}

} // verus!
