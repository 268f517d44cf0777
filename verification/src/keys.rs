//! The names that `mpv` gives to the keys of a terminal.
use crate::text::push_decimal;
use vstd::prelude::*;

verus! {

/// A key.
#[derive(Clone, Copy, Debug, PartialEq, Eq, Structural)]
pub enum KeyCode {
    Backspace,
    Enter,
    Left,
    Right,
    Up,
    Down,
    Home,
    End,
    PageUp,
    PageDown,
    Tab,
    BackTab,
    Delete,
    Insert,
    /// A function key, by its number.
    F(u8),
    /// A character.
    Char(char),
    Null,
    Esc,
    CapsLock,
    ScrollLock,
    NumLock,
    PrintScreen,
    Pause,
    Menu,
    KeypadBegin,
    /// Any media key.
    Media,
    /// Any modifier key.
    Modifier,
}

/// The modifiers that are held with a key, as the bits of
/// `crossterm::event::KeyModifiers`.
#[derive(Clone, Copy, Debug, PartialEq, Eq, Structural)]
pub struct KeyModifiers {
    pub bits: u8,
}

/// A key with the modifiers that are held.
#[derive(Clone, Copy, Debug, PartialEq, Eq, Structural)]
pub struct KeyEvent {
    pub code: KeyCode,
    pub modifiers: KeyModifiers,
}

/// The modifiers that a key's name speaks of.
#[derive(Clone, Copy, Debug, PartialEq, Eq, Structural)]
pub struct Held {
    pub shift: bool,
    pub control: bool,
    pub alt: bool,
}

/// The modifiers among `bits`: shift is the lowest bit, control the next, alt the
/// third.
pub open spec fn held(bits: u8) -> Held {
    Held { shift: bits & 1 == 1, control: bits & 2 == 2, alt: bits & 4 == 4 }
}

/// `crossterm::event::KeyModifiers::contains`, on the modifiers with exactly
/// these bits: whether the bit of each of `SHIFT`, `CONTROL` and `ALT` is set.
#[verifier::external_body]
fn held_modifiers(bits: u8) -> (h: Held)
    ensures
        h == held(bits),
{
    let m = crossterm::event::KeyModifiers::from_bits_retain(bits);
    Held {
        shift: m.contains(crossterm::event::KeyModifiers::SHIFT),
        control: m.contains(crossterm::event::KeyModifiers::CONTROL),
        alt: m.contains(crossterm::event::KeyModifiers::ALT),
    }
}

/// The character is one of `A` to `Z`: it takes shift to type it.
pub open spec fn is_upper(c: char) -> bool {
    'A' <= c <= 'Z'
}

/// The name of the key alone. `None` where `mpv` is sent nothing for it.
pub open spec fn base_name(code: KeyCode) -> Option<Seq<char>> {
    match code {
        KeyCode::Char(c) => if c == ' ' {
            Some("SPACE"@)
        } else {
            Some(seq![c])
        },
        KeyCode::Left => Some("LEFT"@),
        KeyCode::Right => Some("RIGHT"@),
        KeyCode::Up => Some("UP"@),
        KeyCode::Down => Some("DOWN"@),
        KeyCode::Enter => Some("ENTER"@),
        KeyCode::Backspace => Some("BS"@),
        KeyCode::Tab => Some("TAB"@),
        KeyCode::Home => Some("HOME"@),
        KeyCode::End => Some("END"@),
        KeyCode::PageUp => Some("PGUP"@),
        KeyCode::PageDown => Some("PGDWN"@),
        KeyCode::Delete => Some("DEL"@),
        KeyCode::Insert => Some("INS"@),
        KeyCode::F(n) => Some("F"@ + crate::text::decimal(n as nat)),
        _ => None,
    }
}

/// Shift is said by the key itself.
pub open spec fn shift_implied(code: KeyCode) -> bool {
    code matches KeyCode::Char(c) && is_upper(c)
}

/// `s` where `b` holds, else nothing.
pub open spec fn only_if(b: bool, s: Seq<char>) -> Seq<char> {
    if b {
        s
    } else {
        Seq::empty()
    }
}

/// The modifiers as they stand before the name of a key, in their fixed order.
/// Shift is left out where the key itself says it.
pub open spec fn prefix(code: KeyCode, h: Held) -> Seq<char> {
    only_if(h.shift && !shift_implied(code), "shift+"@) + only_if(h.control, "ctrl+"@) + only_if(
        h.alt,
        "alt+"@,
    )
}

/// The name of a key with its modifiers.
pub open spec fn key_name(code: KeyCode, h: Held) -> Option<Seq<char>> {
    match base_name(code) {
        Some(base) => Some(prefix(code, h) + base),
        None => None,
    }
}

/// The name of the key alone.
fn base(code: KeyCode) -> (name: Option<String>)
    ensures
        crate::text::text_in(name) == base_name(code),
{
    let s: &str = match code {
        KeyCode::Char(c) => {
            if c == ' ' {
                "SPACE"
            } else {
                let mut one = String::new();
                one.push(c);
                assert(one@ =~= seq![c]);
                return Some(one);
            }
        },
        KeyCode::Left => "LEFT",
        KeyCode::Right => "RIGHT",
        KeyCode::Up => "UP",
        KeyCode::Down => "DOWN",
        KeyCode::Enter => "ENTER",
        KeyCode::Backspace => "BS",
        KeyCode::Tab => "TAB",
        KeyCode::Home => "HOME",
        KeyCode::End => "END",
        KeyCode::PageUp => "PGUP",
        KeyCode::PageDown => "PGDWN",
        KeyCode::Delete => "DEL",
        KeyCode::Insert => "INS",
        KeyCode::F(n) => {
            let mut name = "F".to_owned();
            push_decimal(&mut name, n as u32);
            return Some(name);
        },
        _ => {
            return None;
        },
    };
    Some(s.to_owned())
}

/// The name of a key with the modifiers `h`.
pub fn mpv_key(code: KeyCode, h: Held) -> (name: Option<String>)
    ensures
        crate::text::text_in(name) == key_name(code, h),
{
    let base = match base(code) {
        Some(base) => base,
        None => {
            return None;
        },
    };
    let shift_implicit = match code {
        KeyCode::Char(c) => 'A' <= c && c <= 'Z',
        _ => false,
    };
    let mut out = String::new();
    if h.shift && !shift_implicit {
        out.append("shift+");
    }
    if h.control {
        out.append("ctrl+");
    }
    if h.alt {
        out.append("alt+");
    }
    assert(out@ =~= prefix(code, h));
    out.append(base.as_str());
    Some(out)
}

/// The name that `mpv` gives to a key event of the terminal. `None` for the keys
/// that are not passed on.
pub fn crossterm_to_mpv_key(key: &KeyEvent) -> (name: Option<String>)
    ensures
        crate::text::text_in(name) == key_name(key.code, held(key.modifiers.bits)),
{
    mpv_key(key.code, held_modifiers(key.modifiers.bits))
}

/// Held shift makes no difference to a capital letter, which says it already.
pub proof fn law_capitals_imply_shift(c: char, h: Held)
    requires
        is_upper(c),
    ensures
        key_name(KeyCode::Char(c), h) == key_name(KeyCode::Char(c), Held { shift: !h.shift, ..h }),
{
}

/// Whether a key is passed on does not depend on the modifiers.
pub proof fn law_modifiers_hide_no_key(code: KeyCode, h: Held)
    ensures
        key_name(code, h) is Some <==> base_name(code) is Some,
{
}

/// Of a key that is passed on, different modifiers give different names; shift
/// counts where the key does not say it.
pub proof fn law_modifiers_are_told_apart(code: KeyCode, a: Held, b: Held)
    requires
        base_name(code) is Some,
        key_name(code, a) == key_name(code, b),
    ensures
        a.control == b.control,
        a.alt == b.alt,
        !shift_implied(code) ==> a.shift == b.shift,
{
    reveal_strlit("shift+");
    reveal_strlit("ctrl+");
    reveal_strlit("alt+");
    let base = base_name(code)->0;
    assert((prefix(code, a) + base).len() == (prefix(code, b) + base).len());
    assert(prefix(code, a).len() == prefix(code, b).len());
}

/// No modifier is held.
pub open spec fn unmodified() -> Held {
    Held { shift: false, control: false, alt: false }
}

/// Every character key is passed on, whatever is held with it: the name ends with
/// the character, and without modifiers it is the character. Only the space has
/// a word for its name.
pub proof fn law_characters_name_themselves(c: char, h: Held)
    requires
        c != ' ',
    ensures
        key_name(KeyCode::Char(c), h) matches Some(name) && name.len() > 0 && name.last() == c,
        key_name(KeyCode::Char(c), unmodified()) == Some(seq![c]),
{
    assert(prefix(KeyCode::Char(c), unmodified()) + seq![c] =~= seq![c]);
}

/// Different characters have different names under the same modifiers.
pub proof fn law_characters_are_told_apart(c: char, d: char, h: Held)
    requires
        c != d,
    ensures
        key_name(KeyCode::Char(c), h) != key_name(KeyCode::Char(d), h),
{
    reveal_strlit("SPACE");
    reveal_strlit("shift+");
    reveal_strlit("ctrl+");
    reveal_strlit("alt+");
    let a = key_name(KeyCode::Char(c), h)->0;
    let b = key_name(KeyCode::Char(d), h)->0;
    if c == ' ' {
        assert(a.last() == 'E' && a[a.len() - 2] == 'C');
        assert(b.last() == d && (b.len() >= 2 ==> b[b.len() - 2] == '+'));
    } else if d == ' ' {
        assert(b.last() == 'E' && b[b.len() - 2] == 'C');
        assert(a.last() == c && (a.len() >= 2 ==> a[a.len() - 2] == '+'));
    } else {
        assert(a.last() == c && b.last() == d);
    }
}

/// A function key is passed on by an `F` and its number.
pub proof fn law_function_keys_say_their_number(n: u8)
    ensures
        key_name(KeyCode::F(n), unmodified()) matches Some(name) && name.len() > 1 && name[0] == 'F'
            && name.skip(1) == crate::text::decimal(n as nat) && crate::text::decimal_value(
            name.skip(1),
        ) == n,
{
    reveal_strlit("F");
    lemma_function_key(KeyCode::F(n));
    let base = base_name(KeyCode::F(n))->0;
    assert(prefix(KeyCode::F(n), unmodified()) + base =~= base);
}

/// These keys, and no others, are kept from `mpv`, whatever is held with them.
pub proof fn law_keys_that_are_kept_back(code: KeyCode, h: Held)
    ensures
        key_name(code, h) is None <==> {
            ||| code is BackTab
            ||| code is Null
            ||| code is Esc
            ||| code is CapsLock
            ||| code is ScrollLock
            ||| code is NumLock
            ||| code is PrintScreen
            ||| code is Pause
            ||| code is Menu
            ||| code is KeypadBegin
            ||| code is Media
            ||| code is Modifier
        },
{
}

/// A modifier is said in front of the name that the key has without it: shift
/// before control, control before alt. Shift is not said of `A` to `Z`.
pub proof fn law_modifiers_stand_in_front(code: KeyCode, control: bool, alt: bool)
    requires
        key_name(code, unmodified()) is Some,
    ensures
        ({
            let plain = key_name(code, Held { shift: false, control, alt })->0;
            let shifted = key_name(code, Held { shift: true, control, alt })->0;
            if code matches KeyCode::Char(c) && 'A' <= c <= 'Z' {
                shifted == plain
            } else {
                shifted == seq!['s', 'h', 'i', 'f', 't', '+'] + plain
            }
        }),
        key_name(code, Held { shift: false, control: true, alt })->0 == seq!['c', 't', 'r', 'l', '+']
            + key_name(code, Held { shift: false, control: false, alt })->0,
        key_name(code, Held { shift: false, control: false, alt: true })->0 == seq![
            'a',
            'l',
            't',
            '+',
        ] + key_name(code, unmodified())->0,
{
    reveal_strlit("shift+");
    reveal_strlit("ctrl+");
    reveal_strlit("alt+");
    let plain = key_name(code, Held { shift: false, control, alt })->0;
    let shifted = key_name(code, Held { shift: true, control, alt })->0;
    if code matches KeyCode::Char(c) && 'A' <= c <= 'Z' {
        assert(shifted =~= plain);
    } else {
        assert(shifted =~= seq!['s', 'h', 'i', 'f', 't', '+'] + plain);
    }
    assert(key_name(code, Held { shift: false, control: true, alt })->0 =~= seq![
        'c',
        't',
        'r',
        'l',
        '+',
    ] + key_name(code, Held { shift: false, control: false, alt })->0);
    assert(key_name(code, Held { shift: false, control: false, alt: true })->0 =~= seq![
        'a',
        'l',
        't',
        '+',
    ] + key_name(code, unmodified())->0);
}

/// The key has a word for its name, and the word is made of capitals.
pub open spec fn has_a_word(code: KeyCode) -> bool {
    key_name(code, unmodified()) matches Some(name) && name.len() >= 2 && forall|i: int|
        0 <= i < name.len() ==> 'A' <= #[trigger] name[i] <= 'Z'
}

/// The keys that are neither characters nor function keys have words for their
/// names, and so has the space.
pub proof fn law_other_keys_have_words(code: KeyCode)
    requires
        key_name(code, unmodified()) is Some,
        !(code is F),
        code matches KeyCode::Char(c) ==> c == ' ',
    ensures
        has_a_word(code),
{
    lemma_words();
    let base = base_name(code)->0;
    assert(prefix(code, unmodified()) + base =~= base);
}

proof fn lemma_words()
    ensures
        "SPACE"@ == seq!['S', 'P', 'A', 'C', 'E'],
        "LEFT"@ == seq!['L', 'E', 'F', 'T'],
        "RIGHT"@ == seq!['R', 'I', 'G', 'H', 'T'],
        "UP"@ == seq!['U', 'P'],
        "DOWN"@ == seq!['D', 'O', 'W', 'N'],
        "ENTER"@ == seq!['E', 'N', 'T', 'E', 'R'],
        "BS"@ == seq!['B', 'S'],
        "TAB"@ == seq!['T', 'A', 'B'],
        "HOME"@ == seq!['H', 'O', 'M', 'E'],
        "END"@ == seq!['E', 'N', 'D'],
        "PGUP"@ == seq!['P', 'G', 'U', 'P'],
        "PGDWN"@ == seq!['P', 'G', 'D', 'W', 'N'],
        "DEL"@ == seq!['D', 'E', 'L'],
        "INS"@ == seq!['I', 'N', 'S'],
{
    reveal_strlit("SPACE");
    reveal_strlit("LEFT");
    reveal_strlit("RIGHT");
    reveal_strlit("UP");
    reveal_strlit("DOWN");
    reveal_strlit("ENTER");
    reveal_strlit("BS");
    reveal_strlit("TAB");
    reveal_strlit("HOME");
    reveal_strlit("END");
    reveal_strlit("PGUP");
    reveal_strlit("PGDWN");
    reveal_strlit("DEL");
    reveal_strlit("INS");
    assert("SPACE"@ =~= seq!['S', 'P', 'A', 'C', 'E']);
    assert("LEFT"@ =~= seq!['L', 'E', 'F', 'T']);
    assert("RIGHT"@ =~= seq!['R', 'I', 'G', 'H', 'T']);
    assert("UP"@ =~= seq!['U', 'P']);
    assert("DOWN"@ =~= seq!['D', 'O', 'W', 'N']);
    assert("ENTER"@ =~= seq!['E', 'N', 'T', 'E', 'R']);
    assert("BS"@ =~= seq!['B', 'S']);
    assert("TAB"@ =~= seq!['T', 'A', 'B']);
    assert("HOME"@ =~= seq!['H', 'O', 'M', 'E']);
    assert("END"@ =~= seq!['E', 'N', 'D']);
    assert("PGUP"@ =~= seq!['P', 'G', 'U', 'P']);
    assert("PGDWN"@ =~= seq!['P', 'G', 'D', 'W', 'N']);
    assert("DEL"@ =~= seq!['D', 'E', 'L']);
    assert("INS"@ =~= seq!['I', 'N', 'S']);
}

proof fn lemma_same_names(a: Seq<char>, b: Seq<char>)
    requires
        a == b,
    ensures
        a.len() == b.len(),
        a.len() > 0 ==> a[0] == b[0] && a.last() == b.last(),
        a.len() > 1 ==> a[1] == b[1],
{
}

proof fn lemma_function_key(code: KeyCode)
    ensures
        code matches KeyCode::F(n) ==> {
            let name = base_name(code)->0;
            &&& name.len() > 1
            &&& '0' <= name[1] <= '9'
            &&& name.skip(1) == crate::text::decimal(n as nat)
            &&& crate::text::decimal_value(name.skip(1)) == n
        },
{
    if let KeyCode::F(n) = code {
        reveal_strlit("F");
        crate::text::law_decimal_reads_back(n as nat);
        crate::text::law_decimal_digits(n as nat);
        let d = crate::text::decimal(n as nat);
        let name = base_name(code)->0;
        assert(name[1] == d[0]);
        assert(name.skip(1) =~= d);
    }
}

/// No two keys have the same name, among all that are passed on.
pub proof fn law_keys_are_told_apart(a: KeyCode, b: KeyCode)
    requires
        key_name(a, unmodified()) is Some,
        key_name(a, unmodified()) == key_name(b, unmodified()),
    ensures
        a == b,
{
    lemma_words();
    let x = base_name(a)->0;
    let y = base_name(b)->0;
    assert(prefix(a, unmodified()) + x =~= x);
    assert(prefix(b, unmodified()) + y =~= y);
    lemma_same_names(x, y);
    lemma_function_key(a);
    lemma_function_key(b);
    match (a, b) {
        (KeyCode::F(n), KeyCode::F(m)) => {
            assert(n == m);
        },
        (KeyCode::Char(c), KeyCode::Char(d)) => {
            if c != d {
                law_characters_are_told_apart(c, d, unmodified());
            }
        },
        (KeyCode::F(_), _) => {
            assert('0' <= x[1] <= '9');
        },
        (_, KeyCode::F(_)) => {
            assert('0' <= y[1] <= '9');
        },
        _ => {},
    }
}

/// Shift is the bit of value one, control that of value two, alt that of value
/// four; no other bit counts.
pub proof fn law_modifier_bits(bits: u8)
    ensures
        held(bits).shift <==> bits % 2 == 1,
        held(bits).control <==> (bits / 2) % 2 == 1,
        held(bits).alt <==> (bits / 4) % 2 == 1,
{
    assert((bits & 1 == 1) == (bits % 2 == 1)) by (bit_vector);
    assert((bits & 2 == 2) == ((bits / 2) % 2 == 1)) by (bit_vector);
    assert((bits & 4 == 4) == ((bits / 4) % 2 == 1)) by (bit_vector);
}

} // verus!
