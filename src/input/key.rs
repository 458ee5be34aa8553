use vstd::prelude::*;

verus! {

/// A key of the keyboard.
#[derive(Copy, Clone, Debug, PartialEq, Eq, Structural, Hash)]
pub enum Key {
    Unknown,
    A,
    B,
    C,
    D,
    E,
    F,
    G,
    H,
    I,
    J,
    K,
    L,
    M,
    N,
    O,
    P,
    Q,
    R,
    S,
    T,
    U,
    V,
    W,
    X,
    Y,
    Z,
    One,
    Two,
    Three,
    Four,
    Five,
    Six,
    Seven,
    Eight,
    Nine,
    Zero,
    Minus,
    Equals,
    OpenBracket,
    CloseBracket,
    Backslash,
    Semicolon,
    Apostrophe,
    Comma,
    Dot,
    Slash,
    Backtick,
    Backspace,
    Tab,
    Return,
    Shift,
    Control,
    Opt,
    Space,
    Up,
    Down,
    Left,
    Right,
}

/// The character a key types without shift, if any.
pub open spec fn plain_char(k: Key) -> Option<char> {
    match k {
        Key::A => Some('a'),
        Key::B => Some('b'),
        Key::C => Some('c'),
        Key::D => Some('d'),
        Key::E => Some('e'),
        Key::F => Some('f'),
        Key::G => Some('g'),
        Key::H => Some('h'),
        Key::I => Some('i'),
        Key::J => Some('j'),
        Key::K => Some('k'),
        Key::L => Some('l'),
        Key::M => Some('m'),
        Key::N => Some('n'),
        Key::O => Some('o'),
        Key::P => Some('p'),
        Key::Q => Some('q'),
        Key::R => Some('r'),
        Key::S => Some('s'),
        Key::T => Some('t'),
        Key::U => Some('u'),
        Key::V => Some('v'),
        Key::W => Some('w'),
        Key::X => Some('x'),
        Key::Y => Some('y'),
        Key::Z => Some('z'),
        Key::One => Some('1'),
        Key::Two => Some('2'),
        Key::Three => Some('3'),
        Key::Four => Some('4'),
        Key::Five => Some('5'),
        Key::Six => Some('6'),
        Key::Seven => Some('7'),
        Key::Eight => Some('8'),
        Key::Nine => Some('9'),
        Key::Zero => Some('0'),
        Key::Minus => Some('-'),
        Key::Equals => Some('='),
        Key::OpenBracket => Some('['),
        Key::CloseBracket => Some(']'),
        Key::Backslash => Some('\\'),
        Key::Semicolon => Some(';'),
        Key::Apostrophe => Some('\''),
        Key::Comma => Some(','),
        Key::Dot => Some('.'),
        Key::Slash => Some('/'),
        Key::Backtick => Some('`'),
        _ => None,
    }
}

/// The character a key types with shift held, if any.
pub open spec fn shifted_char(k: Key) -> Option<char> {
    match k {
        Key::A => Some('A'),
        Key::B => Some('B'),
        Key::C => Some('C'),
        Key::D => Some('D'),
        Key::E => Some('E'),
        Key::F => Some('F'),
        Key::G => Some('G'),
        Key::H => Some('H'),
        Key::I => Some('I'),
        Key::J => Some('J'),
        Key::K => Some('K'),
        Key::L => Some('L'),
        Key::M => Some('M'),
        Key::N => Some('N'),
        Key::O => Some('O'),
        Key::P => Some('P'),
        Key::Q => Some('Q'),
        Key::R => Some('R'),
        Key::S => Some('S'),
        Key::T => Some('T'),
        Key::U => Some('U'),
        Key::V => Some('V'),
        Key::W => Some('W'),
        Key::X => Some('X'),
        Key::Y => Some('Y'),
        Key::Z => Some('Z'),
        Key::One => Some('!'),
        Key::Two => Some('@'),
        Key::Three => Some('#'),
        Key::Four => Some('$'),
        Key::Five => Some('%'),
        Key::Six => Some('^'),
        Key::Seven => Some('&'),
        Key::Eight => Some('*'),
        Key::Nine => Some('('),
        Key::Zero => Some(')'),
        Key::Minus => Some('_'),
        Key::Equals => Some('+'),
        Key::OpenBracket => Some('{'),
        Key::CloseBracket => Some('{'),
        Key::Backslash => Some('|'),
        Key::Semicolon => Some(':'),
        Key::Apostrophe => Some('"'),
        Key::Comma => Some('<'),
        Key::Dot => Some('>'),
        Key::Slash => Some('?'),
        Key::Backtick => Some('~'),
        _ => None,
    }
}

/// The character a key types: the space bar always types a space.
pub open spec fn key_char(k: Key, shift: bool) -> Option<char> {
    if k == Key::Space {
        Some(' ')
    } else if shift {
        shifted_char(k)
    } else {
        plain_char(k)
    }
}

impl Key {
    fn plain(&self) -> (r: Option<char>)
        ensures
            r == plain_char(*self),
    {
        match self {
            Key::A => Some('a'),
            Key::B => Some('b'),
            Key::C => Some('c'),
            Key::D => Some('d'),
            Key::E => Some('e'),
            Key::F => Some('f'),
            Key::G => Some('g'),
            Key::H => Some('h'),
            Key::I => Some('i'),
            Key::J => Some('j'),
            Key::K => Some('k'),
            Key::L => Some('l'),
            Key::M => Some('m'),
            Key::N => Some('n'),
            Key::O => Some('o'),
            Key::P => Some('p'),
            Key::Q => Some('q'),
            Key::R => Some('r'),
            Key::S => Some('s'),
            Key::T => Some('t'),
            Key::U => Some('u'),
            Key::V => Some('v'),
            Key::W => Some('w'),
            Key::X => Some('x'),
            Key::Y => Some('y'),
            Key::Z => Some('z'),
            Key::One => Some('1'),
            Key::Two => Some('2'),
            Key::Three => Some('3'),
            Key::Four => Some('4'),
            Key::Five => Some('5'),
            Key::Six => Some('6'),
            Key::Seven => Some('7'),
            Key::Eight => Some('8'),
            Key::Nine => Some('9'),
            Key::Zero => Some('0'),
            Key::Minus => Some('-'),
            Key::Equals => Some('='),
            Key::OpenBracket => Some('['),
            Key::CloseBracket => Some(']'),
            Key::Backslash => Some('\\'),
            Key::Semicolon => Some(';'),
            Key::Apostrophe => Some('\''),
            Key::Comma => Some(','),
            Key::Dot => Some('.'),
            Key::Slash => Some('/'),
            Key::Backtick => Some('`'),
            _ => None,
        }
    }

    fn shifted(&self) -> (r: Option<char>)
        ensures
            r == shifted_char(*self),
    {
        match self {
            Key::A => Some('A'),
            Key::B => Some('B'),
            Key::C => Some('C'),
            Key::D => Some('D'),
            Key::E => Some('E'),
            Key::F => Some('F'),
            Key::G => Some('G'),
            Key::H => Some('H'),
            Key::I => Some('I'),
            Key::J => Some('J'),
            Key::K => Some('K'),
            Key::L => Some('L'),
            Key::M => Some('M'),
            Key::N => Some('N'),
            Key::O => Some('O'),
            Key::P => Some('P'),
            Key::Q => Some('Q'),
            Key::R => Some('R'),
            Key::S => Some('S'),
            Key::T => Some('T'),
            Key::U => Some('U'),
            Key::V => Some('V'),
            Key::W => Some('W'),
            Key::X => Some('X'),
            Key::Y => Some('Y'),
            Key::Z => Some('Z'),
            Key::One => Some('!'),
            Key::Two => Some('@'),
            Key::Three => Some('#'),
            Key::Four => Some('$'),
            Key::Five => Some('%'),
            Key::Six => Some('^'),
            Key::Seven => Some('&'),
            Key::Eight => Some('*'),
            Key::Nine => Some('('),
            Key::Zero => Some(')'),
            Key::Minus => Some('_'),
            Key::Equals => Some('+'),
            Key::OpenBracket => Some('{'),
            Key::CloseBracket => Some('{'),
            Key::Backslash => Some('|'),
            Key::Semicolon => Some(':'),
            Key::Apostrophe => Some('"'),
            Key::Comma => Some('<'),
            Key::Dot => Some('>'),
            Key::Slash => Some('?'),
            Key::Backtick => Some('~'),
            _ => None,
        }
    }

    /// The character the key types, with or without shift held.
    pub fn to_char(&self, shift: bool) -> (r: Option<char>)
        ensures
            r == key_char(*self, shift),
    {
        if *self == Key::Space {
            Some(' ')
        } else if shift {
            self.shifted()
        } else {
            self.plain()
        }
    }
}

/// Whether one key is held down.
#[derive(Copy, Clone, Debug, PartialEq, Eq, Structural)]
pub struct KeyState {
    pub key: Key,
    pub down: bool,
}

/// The keys seen so far and whether each is held down.
///
/// The table is a `Vec` with one entry per key rather than a `HashMap`:
/// what a `HashMap` lookup returns can only be proved for keys whose
/// hashing and equality Verus knows to be well-behaved, which a derived
/// `Hash`/`Eq` on `Key` does not give it. With a `Vec` every lookup and
/// update is proved against the map view below.
#[derive(Debug)]
pub struct KeysRes {
    entries: Vec<KeyState>,
}

impl View for KeysRes {
    type V = Map<Key, bool>;

    closed spec fn view(&self) -> Map<Key, bool> {
        Map::new(
            |k: Key| exists|i: int| 0 <= i < self.entries@.len() && (#[trigger] self.entries@[i]).key == k,
            |k: Key|
                self.entries@[choose|i: int|
                    0 <= i < self.entries@.len() && (#[trigger] self.entries@[i]).key == k].down,
        )
    }
}

impl KeysRes {
    /// No key has two entries.
    pub closed spec fn wf(&self) -> bool {
        forall|i: int, j: int|
            0 <= i < j < self.entries@.len() ==> (#[trigger] self.entries@[i]).key != (
            #[trigger] self.entries@[j]).key
    }

    /// No key seen yet.
    pub fn new() -> (r: Self)
        ensures
            r@ == Map::<Key, bool>::empty(),
            r.wf(),
    {
        let r = Self { entries: Vec::new() };
        assert(r@ =~= Map::<Key, bool>::empty());
        r
    }

    fn find(&self, key: Key) -> (r: usize)
        ensures
            r <= self.entries@.len(),
            r < self.entries@.len() ==> self.entries@[r as int].key == key,
            r == self.entries@.len() ==> forall|j: int|
                0 <= j < self.entries@.len() ==> (#[trigger] self.entries@[j]).key != key,
    {
        let mut i: usize = 0;
        while i < self.entries.len()
            invariant
                i <= self.entries@.len(),
                forall|j: int| 0 <= j < i ==> (#[trigger] self.entries@[j]).key != key,
            decreases self.entries@.len() - i,
        {
            if self.entries[i].key == key {
                return i;
            }
            i = i + 1;
        }
        i
    }

    /// Whether `key` is held down; a key never seen is not.
    pub fn pressed(&self, key: Key) -> (r: bool)
        requires
            self.wf(),
        ensures
            r == (self@.contains_key(key) && self@[key]),
    {
        let i = self.find(key);
        if i < self.entries.len() {
            proof {
                assert(self@.contains_key(key));
                let c = choose|c: int| 0 <= c < self.entries@.len() && (#[trigger] self.entries@[c]).key == key;
                assert(c == i as int);
            }
            self.entries[i].down
        } else {
            false
        }
    }

    fn record(&mut self, key: Key, down: bool)
        requires
            old(self).wf(),
        ensures
            final(self)@ == old(self)@.insert(key, down),
            final(self).wf(),
    {
        let ghost before = self.entries@;
        let i = self.find(key);
        if i < self.entries.len() {
            self.entries.set(i, KeyState { key, down });
        } else {
            self.entries.push(KeyState { key, down });
        }
        proof {
            let after = self.entries@;
            assert forall|k: Key| #[trigger] self@.contains_key(k) == old(self)@.insert(key, down).contains_key(k) by {
                if k != key && old(self)@.contains_key(k) {
                    let c = choose|c: int| 0 <= c < before.len() && (#[trigger] before[c]).key == k;
                    assert(after[c].key == k);
                }
                if k != key && self@.contains_key(k) {
                    let c = choose|c: int| 0 <= c < after.len() && (#[trigger] after[c]).key == k;
                    assert(before[c].key == k);
                }
                if k == key {
                    assert(after[i as int].key == key);
                }
            }
            assert forall|k: Key| #[trigger] self@.contains_key(k) implies self@[k] == old(self)@.insert(key, down)[k] by {
                let c = choose|c: int| 0 <= c < after.len() && (#[trigger] after[c]).key == k;
                if k == key {
                    assert(after[i as int].key == key);
                } else {
                    assert(before[c].key == k);
                    let b = choose|b: int| 0 <= b < before.len() && (#[trigger] before[b]).key == k;
                    assert(b == c);
                }
            }
            assert(self@ =~= old(self)@.insert(key, down));
            assert forall|a: int, b: int| 0 <= a < b < after.len() implies (#[trigger] after[a]).key != (
                #[trigger] after[b]).key by {
                if b == before.len() {
                    assert(after[a] == before[a]);
                } else if a == i as int || b == i as int {
                    if a != i as int { assert(after[a] == before[a]); }
                    if b != i as int { assert(after[b] == before[b]); }
                } else {
                    assert(after[a] == before[a]);
                    assert(after[b] == before[b]);
                }
            }
        }
    }

    /// Records that `key` went down.
    pub fn press(&mut self, key: Key)
        requires
            old(self).wf(),
        ensures
            final(self).wf(),
            final(self)@ == old(self)@.insert(key, true),
    {
        self.record(key, true);
    }

    /// Records that `key` went up.
    pub fn release(&mut self, key: Key)
        requires
            old(self).wf(),
        ensures
            final(self).wf(),
            final(self)@ == old(self)@.insert(key, false),
    {
        self.record(key, false);
    }
}

} // verus!
