use vstd::prelude::*;

verus! {

pub const SHIFT: u8 = 0b1;
pub const ALT: u8 = 0b10;
pub const CTRL: u8 = 0b100;
pub const SUPER: u8 = 0b1000;
pub const HYPER: u8 = 0b10000;
pub const META: u8 = 0b100000;
pub const CAPS_LOCK: u8 = 0b1000000;
pub const NUM_LOCK: u8 = 0b10000000;

pub const LEFT: char = '\u{e006}';
pub const RIGHT: char = '\u{e007}';
pub const UP: char = '\u{e008}';
pub const DOWN: char = '\u{e009}';
pub const LEFT_SHIFT: char = '\u{e061}';

/// What `str::to_lowercase` returns for a string.
pub uninterp spec fn lower_of(s: Seq<char>) -> Seq<char>;

/// Relies on `str::to_lowercase`: the result depends on the characters alone.
#[verifier::external_body]
fn lowercase(s: &str) -> (r: String)
    ensures
        r@ == lower_of(s@),
{
    s.to_lowercase()
}

/// The key that a lower-case key name stands for.
pub open spec fn key_of_name(s: Seq<char>) -> Option<char> {
    if s == seq!['l', 'e', 'f', 't'] {
        Some(LEFT)
    } else if s == seq!['r', 'i', 'g', 'h', 't'] {
        Some(RIGHT)
    } else if s == seq!['u', 'p'] {
        Some(UP)
    } else if s == seq!['d', 'o', 'w', 'n'] {
        Some(DOWN)
    } else if s == seq!['s', 'h', 'i', 'f', 't'] {
        Some(LEFT_SHIFT)
    } else if s == seq!['s', 'p', 'a', 'c', 'e'] {
        Some(' ')
    } else {
        None
    }
}

/// Looks up a lower-case key name.
pub fn key_of_lower(s: &String) -> (r: Option<char>)
    ensures
        r == key_of_name(s@),
{
    let left = "left".to_owned();
    let right = "right".to_owned();
    let up = "up".to_owned();
    let down = "down".to_owned();
    let shift = "shift".to_owned();
    let space = "space".to_owned();
    proof {
        reveal_strlit("left");
        reveal_strlit("right");
        reveal_strlit("up");
        reveal_strlit("down");
        reveal_strlit("shift");
        reveal_strlit("space");
        assert(left@ =~= seq!['l', 'e', 'f', 't']);
        assert(right@ =~= seq!['r', 'i', 'g', 'h', 't']);
        assert(up@ =~= seq!['u', 'p']);
        assert(down@ =~= seq!['d', 'o', 'w', 'n']);
        assert(shift@ =~= seq!['s', 'h', 'i', 'f', 't']);
        assert(space@ =~= seq!['s', 'p', 'a', 'c', 'e']);
    }
    if *s == left {
        Some(LEFT)
    } else if *s == right {
        Some(RIGHT)
    } else if *s == up {
        Some(UP)
    } else if *s == down {
        Some(DOWN)
    } else if *s == shift {
        Some(LEFT_SHIFT)
    } else if *s == space {
        Some(' ')
    } else {
        None
    }
}

/// The key that a key name stands for, in any letter case.
pub fn get_key(name: &str) -> (r: Option<char>)
    ensures
        r == key_of_name(lower_of(name@)),
{
    let lower = lowercase(name);
    key_of_lower(&lower)
}

/// The final byte of a terminal escape sequence names one of these keys.
pub open spec fn is_trailer(c: u8) -> bool {
    c == 65 || c == 66 || c == 67 || c == 68 || c == 69 || c == 70 || c == 72 || c == 80 || c == 81
        || c == 82 || c == 83
}

/// The key named by the final byte `c` of a terminal escape sequence.
pub open spec fn trailer_key(c: u8) -> char {
    if c == 65 {
        UP
    } else if c == 66 {
        DOWN
    } else if c == 67 {
        RIGHT
    } else if c == 68 {
        LEFT
    } else if c == 69 {
        '\u{e053}'
    } else if c == 70 {
        '\u{e00d}'
    } else if c == 72 {
        '\u{e00c}'
    } else if c == 80 {
        '\u{e014}'
    } else if c == 81 {
        '\u{e015}'
    } else if c == 82 {
        '\u{e001}'
    } else {
        '\u{e003}'
    }
}

/// The key named by the final byte of a terminal escape sequence.
pub fn trailer_map(c: u8) -> (r: char)
    requires
        is_trailer(c),
    ensures
        r == trailer_key(c),
{
    if c == 65 {
        UP
    } else if c == 66 {
        DOWN
    } else if c == 67 {
        RIGHT
    } else if c == 68 {
        LEFT
    } else if c == 69 {
        '\u{e053}'
    } else if c == 70 {
        '\u{e00d}'
    } else if c == 72 {
        '\u{e00c}'
    } else if c == 80 {
        '\u{e014}'
    } else if c == 81 {
        '\u{e015}'
    } else if c == 82 {
        '\u{e001}'
    } else {
        '\u{e003}'
    }
}

/// A key press or release reported by the terminal.
#[derive(Debug, Clone, Copy, PartialEq, Eq, Hash, Structural)]
pub struct KeyEvent {
    pub key: char,
    pub mods: u8,
    pub press: bool,
}

/// Why a byte sequence gave no key event.
#[derive(Debug, Clone, Copy, PartialEq, Eq, Structural)]
pub enum KeyError {
    /// not an escape sequence for a key, or an invalid code point
    NotKey,
    /// a key repeat, which the game ignores
    Repeat,
    /// a modifier field of an unknown shape
    Unrecognized,
}

/// The index of the first `c` in `s[from..to]`, or `to` when there is none.
pub open spec fn first_at(s: Seq<u8>, from: int, to: int, c: u8) -> int
    decreases to - from,
{
    if from >= to {
        to
    } else if s[from] == c {
        from
    } else {
        first_at(s, from + 1, to, c)
    }
}

/// The decimal value of the digits `s[from..to]`.
pub open spec fn digits_value(s: Seq<u8>, from: int, to: int) -> nat
    decreases to - from,
{
    if to <= from {
        0
    } else {
        digits_value(s, from, to - 1) * 10 + (s[to - 1] - 48) as nat
    }
}

pub open spec fn all_digits(s: Seq<u8>, from: int, to: int) -> bool {
    forall|j: int| from <= j < to ==> 48 <= #[trigger] s[j] <= 57
}

/// A numeric field `s[from..to]` read as `str::parse::<u32>` reads it (an optional
/// `+`, then at least one digit, no overflow), 0 when it does not parse.
pub open spec fn field_value(s: Seq<u8>, from: int, to: int) -> u32 {
    let d = if from < to && s[from] == 43 { from + 1 } else { from };
    if d < to && all_digits(s, d, to) && digits_value(s, d, to) <= u32::MAX {
        digits_value(s, d, to) as u32
    } else {
        0
    }
}

/// `b` is `ESC [`, parameters, and a final byte naming a key or `u`.
pub open spec fn escape_shaped(b: Seq<u8>) -> bool {
    b.len() >= 3 && b[0] == 27 && b[1] == 91 && (is_trailer(b.last()) || b.last() == 117)
}

/// The key code: the first `:`-part of the first `;`-field of the parameters.
pub open spec fn key_code(b: Seq<u8>) -> u32 {
    let end = b.len() - 1;
    let semi = first_at(b, 2, end, 59);
    field_value(b, 2, first_at(b, 2, semi, 58))
}

/// The modifier field, the second `;`-field of the parameters: absent means a plain
/// press; `mods` or `mods:1` a press, `mods:3` a release, `mods:2` a repeat. The
/// result holds the modifier number and whether it is a press.
pub open spec fn key_mods(b: Seq<u8>) -> Result<(u32, bool), KeyError> {
    let end = b.len() - 1;
    let semi = first_at(b, 2, end, 59);
    if semi >= end {
        Ok((1u32, true))
    } else {
        let f_end = first_at(b, semi + 1, end, 59);
        let colon = first_at(b, semi + 1, f_end, 58);
        let a = field_value(b, semi + 1, colon);
        if colon >= f_end {
            Ok((a, true))
        } else if first_at(b, colon + 1, f_end, 58) < f_end {
            Err(KeyError::Unrecognized)
        } else {
            let e = field_value(b, colon + 1, f_end);
            if e == 1 {
                Ok((a, true))
            } else if e == 3 {
                Ok((a, false))
            } else if e == 2 {
                Err(KeyError::Repeat)
            } else {
                Err(KeyError::Unrecognized)
            }
        }
    }
}

/// A code point that names a character.
pub open spec fn valid_code_point(c: u32) -> bool {
    c <= 0x10FFFF && !(0xD800 <= c <= 0xDFFF)
}

/// Relies on `char::from_u32`: `Some` exactly for a valid code point, holding that
/// code point.
#[verifier::external_body]
fn char_from_u32(c: u32) -> (r: Option<char>)
    ensures
        r is Some <==> valid_code_point(c),
        r matches Some(ch) ==> ch as u32 == c,
{
    char::from_u32(c)
}

proof fn lemma_digits_monotone(s: Seq<u8>, from: int, k: int, to: int)
    requires
        from <= k <= to,
        all_digits(s, from, to),
    ensures
        digits_value(s, from, k) <= digits_value(s, from, to),
    decreases to - k,
{
    if k < to {
        lemma_digits_monotone(s, from, k, to - 1);
        assert(48 <= s[to - 1] <= 57);
    }
}

/// The first index of `c` in `buf[from..to]`, or `to`.
fn find_byte(buf: &[u8], from: usize, to: usize, c: u8) -> (r: usize)
    requires
        from <= to <= buf@.len(),
    ensures
        r as int == first_at(buf@, from as int, to as int, c),
        from <= r <= to,
{
    let mut i = from;
    while i < to && buf[i] != c
        invariant
            from <= i <= to,
            to <= buf@.len(),
            first_at(buf@, from as int, to as int, c) == first_at(buf@, i as int, to as int, c),
        decreases to - i,
    {
        i = i + 1;
    }
    i
}

/// Reads `buf[from..to]` as `field_value` does.
fn parse_field(buf: &[u8], from: usize, to: usize) -> (r: u32)
    requires
        from <= to <= buf@.len(),
    ensures
        r == field_value(buf@, from as int, to as int),
{
    let d = if from < to && buf[from] == 43 { from + 1 } else { from };
    if d >= to {
        return 0;
    }
    let mut acc: u64 = 0;
    let mut i = d;
    while i < to
        invariant
            d <= i <= to,
            to <= buf@.len(),
            d as int == if from < to && buf@[from as int] == 43 { from + 1 } else { from as int },
            all_digits(buf@, d as int, i as int),
            acc as nat == digits_value(buf@, d as int, i as int),
            acc <= u32::MAX,
        decreases to - i,
    {
        let b = buf[i];
        if b < 48 || b > 57 {
            assert(!all_digits(buf@, d as int, to as int)) by {
                assert(buf@[i as int] == b);
            }
            return 0;
        }
        acc = acc * 10 + (b - 48) as u64;
        assert(acc as nat == digits_value(buf@, d as int, i as int + 1));
        if acc > 4294967295 {
            proof {
                if all_digits(buf@, d as int, to as int) {
                    lemma_digits_monotone(buf@, d as int, i as int + 1, to as int);
                }
            }
            return 0;
        }
        i = i + 1;
    }
    acc as u32
}

/// Reads one key event in the terminal's progressive keyboard protocol: `ESC [`,
/// the key code (or a final byte naming an arrow or function key), optional
/// modifiers and event type, and the final byte.
pub fn parse_kitty_key(buf: &[u8]) -> (r: Result<KeyEvent, KeyError>)
    ensures
        !escape_shaped(buf@) ==> r == Err::<KeyEvent, KeyError>(KeyError::NotKey),
        escape_shaped(buf@) && buf@.last() == 117 && !valid_code_point(key_code(buf@)) ==> r == Err::<KeyEvent, KeyError>(KeyError::NotKey),
        escape_shaped(buf@) && (buf@.last() != 117 || valid_code_point(key_code(buf@))) ==> match key_mods(buf@) {
            Err(e) => r == Err::<KeyEvent, KeyError>(e),
            Ok((a, press)) => r matches Ok(k) && {
                &&& k.mods == ((a + 255) % 256) as u8
                &&& k.press == press
                &&& buf@.last() == 117 ==> k.key as u32 == key_code(buf@)
                &&& buf@.last() != 117 ==> k.key == trailer_key(buf@.last())
            },
        },
{
    let n = buf.len();
    if n < 3 || buf[0] != 27 || buf[1] != 91 {
        return Err(KeyError::NotKey);
    }
    let trailer = buf[n - 1];
    let is_u = trailer == 117;
    if !is_u && !(trailer == 65 || trailer == 66 || trailer == 67 || trailer == 68 || trailer == 69
        || trailer == 70 || trailer == 72 || trailer == 80 || trailer == 81 || trailer == 82 || trailer == 83) {
        return Err(KeyError::NotKey);
    }
    let end = n - 1;
    let semi = find_byte(buf, 2, end, 59);
    let key = if is_u {
        let c_end = find_byte(buf, 2, semi, 58);
        let code = parse_field(buf, 2, c_end);
        match char_from_u32(code) {
            Some(ch) => ch,
            None => return Err(KeyError::NotKey),
        }
    } else {
        trailer_map(trailer)
    };
    let (a, press) = if semi >= end {
        (1u32, true)
    } else {
        let f_end = find_byte(buf, semi + 1, end, 59);
        let colon = find_byte(buf, semi + 1, f_end, 58);
        let a = parse_field(buf, semi + 1, colon);
        if colon >= f_end {
            (a, true)
        } else if find_byte(buf, colon + 1, f_end, 58) < f_end {
            return Err(KeyError::Unrecognized);
        } else {
            let e = parse_field(buf, colon + 1, f_end);
            if e == 1 {
                (a, true)
            } else if e == 3 {
                (a, false)
            } else if e == 2 {
                return Err(KeyError::Repeat);
            } else {
                return Err(KeyError::Unrecognized);
            }
        }
    };
    let mods = (a.wrapping_sub(1) % 256) as u8;
    assert(mods == ((a + 255) % 256) as u8) by (bit_vector)
        requires
            mods == (a.wrapping_sub(1) % 256) as u8,
    ;
    Ok(KeyEvent { key, mods, press })
}

} // verus!
