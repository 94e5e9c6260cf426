//! The assembly language's mnemonics and its lexer, on bytes.

use vstd::prelude::*;

verus! {

/// Bytes of the assembly text.
pub const SPACE: u8 = 0x20;
pub const COMMA: u8 = 0x2C;
pub const COLON: u8 = 0x3A;
pub const UNDERSCORE: u8 = 0x5F;
pub const DIGIT_0: u8 = 0x30;
pub const DIGIT_1: u8 = 0x31;
pub const DIGIT_7: u8 = 0x37;
pub const DIGIT_9: u8 = 0x39;
pub const UPPER_A: u8 = 0x41;
pub const UPPER_F: u8 = 0x46;
pub const UPPER_Z: u8 = 0x5A;
pub const LOWER_A: u8 = 0x61;
pub const LOWER_B: u8 = 0x62;
pub const LOWER_F: u8 = 0x66;
pub const LOWER_O: u8 = 0x6F;
pub const LOWER_X: u8 = 0x78;
pub const LOWER_Z: u8 = 0x7A;

/// The mnemonics of the assembly language.
#[derive(Clone, Copy, Debug, PartialEq, Eq, Structural)]
pub enum Mnemonic {
    Move,
    Jump,
    SetSleepTimer,
    LoopBegin,
    LoopEnd,
    ShootDirection,
    SetSprite,
    SetHomingTimer,
    SetInversion,
    SetPosition,
    SetJumpOnDamage,
    UnsetJumpOnDamage,
    SetHealth,
    IncrementSprite,
    DecrementSprite,
    SetPart,
    RandomizeX,
    RandomizeY,
    BccX,
    BcsX,
    BccY,
    BcsY,
    ShootAim,
    ChangeMusic,
}

/// The spelling of each mnemonic.
pub open spec fn mnemonic_text(m: Mnemonic) -> Seq<u8> {
    match m {
        Mnemonic::Move => seq![0x6D, 0x6F, 0x76, 0x65],  // move
        Mnemonic::Jump => seq![0x6A, 0x75, 0x6D, 0x70],  // jump
        Mnemonic::SetSleepTimer => seq![0x73, 0x65, 0x74, 0x5F, 0x73, 0x6C, 0x65, 0x65, 0x70, 0x5F, 0x74, 0x69, 0x6D, 0x65, 0x72],  // set_sleep_timer
        Mnemonic::LoopBegin => seq![0x6C, 0x6F, 0x6F, 0x70, 0x5F, 0x62, 0x65, 0x67, 0x69, 0x6E],  // loop_begin
        Mnemonic::LoopEnd => seq![0x6C, 0x6F, 0x6F, 0x70, 0x5F, 0x65, 0x6E, 0x64],  // loop_end
        Mnemonic::ShootDirection => seq![0x73, 0x68, 0x6F, 0x6F, 0x74, 0x5F, 0x64, 0x69, 0x72, 0x65, 0x63, 0x74, 0x69, 0x6F, 0x6E],  // shoot_direction
        Mnemonic::SetSprite => seq![0x73, 0x65, 0x74, 0x5F, 0x73, 0x70, 0x72, 0x69, 0x74, 0x65],  // set_sprite
        Mnemonic::SetHomingTimer => seq![0x73, 0x65, 0x74, 0x5F, 0x68, 0x6F, 0x6D, 0x69, 0x6E, 0x67, 0x5F, 0x74, 0x69, 0x6D, 0x65, 0x72],  // set_homing_timer
        Mnemonic::SetInversion => seq![0x73, 0x65, 0x74, 0x5F, 0x69, 0x6E, 0x76, 0x65, 0x72, 0x73, 0x69, 0x6F, 0x6E],  // set_inversion
        Mnemonic::SetPosition => seq![0x73, 0x65, 0x74, 0x5F, 0x70, 0x6F, 0x73, 0x69, 0x74, 0x69, 0x6F, 0x6E],  // set_position
        Mnemonic::SetJumpOnDamage => seq![0x73, 0x65, 0x74, 0x5F, 0x6A, 0x75, 0x6D, 0x70, 0x5F, 0x6F, 0x6E, 0x5F, 0x64, 0x61, 0x6D, 0x61, 0x67, 0x65],  // set_jump_on_damage
        Mnemonic::UnsetJumpOnDamage => seq![0x75, 0x6E, 0x73, 0x65, 0x74, 0x5F, 0x6A, 0x75, 0x6D, 0x70, 0x5F, 0x6F, 0x6E, 0x5F, 0x64, 0x61, 0x6D, 0x61, 0x67, 0x65],  // unset_jump_on_damage
        Mnemonic::SetHealth => seq![0x73, 0x65, 0x74, 0x5F, 0x68, 0x65, 0x61, 0x6C, 0x74, 0x68],  // set_health
        Mnemonic::IncrementSprite => seq![0x69, 0x6E, 0x63, 0x72, 0x65, 0x6D, 0x65, 0x6E, 0x74, 0x5F, 0x73, 0x70, 0x72, 0x69, 0x74, 0x65],  // increment_sprite
        Mnemonic::DecrementSprite => seq![0x64, 0x65, 0x63, 0x72, 0x65, 0x6D, 0x65, 0x6E, 0x74, 0x5F, 0x73, 0x70, 0x72, 0x69, 0x74, 0x65],  // decrement_sprite
        Mnemonic::SetPart => seq![0x73, 0x65, 0x74, 0x5F, 0x70, 0x61, 0x72, 0x74],  // set_part
        Mnemonic::RandomizeX => seq![0x72, 0x61, 0x6E, 0x64, 0x6F, 0x6D, 0x69, 0x7A, 0x65, 0x5F, 0x78],  // randomize_x
        Mnemonic::RandomizeY => seq![0x72, 0x61, 0x6E, 0x64, 0x6F, 0x6D, 0x69, 0x7A, 0x65, 0x5F, 0x79],  // randomize_y
        Mnemonic::BccX => seq![0x62, 0x63, 0x63, 0x5F, 0x78],  // bcc_x
        Mnemonic::BcsX => seq![0x62, 0x63, 0x73, 0x5F, 0x78],  // bcs_x
        Mnemonic::BccY => seq![0x62, 0x63, 0x63, 0x5F, 0x79],  // bcc_y
        Mnemonic::BcsY => seq![0x62, 0x63, 0x73, 0x5F, 0x79],  // bcs_y
        Mnemonic::ShootAim => seq![0x73, 0x68, 0x6F, 0x6F, 0x74, 0x5F, 0x61, 0x69, 0x6D],  // shoot_aim
        Mnemonic::ChangeMusic => seq![0x63, 0x68, 0x61, 0x6E, 0x67, 0x65, 0x5F, 0x6D, 0x75, 0x73, 0x69, 0x63],  // change_music
    }
}

/// Every mnemonic, in a fixed order.
pub open spec fn all_mnemonics() -> Seq<Mnemonic> {
    seq![
        Mnemonic::Move,
        Mnemonic::Jump,
        Mnemonic::SetSleepTimer,
        Mnemonic::LoopBegin,
        Mnemonic::LoopEnd,
        Mnemonic::ShootDirection,
        Mnemonic::SetSprite,
        Mnemonic::SetHomingTimer,
        Mnemonic::SetInversion,
        Mnemonic::SetPosition,
        Mnemonic::SetJumpOnDamage,
        Mnemonic::UnsetJumpOnDamage,
        Mnemonic::SetHealth,
        Mnemonic::IncrementSprite,
        Mnemonic::DecrementSprite,
        Mnemonic::SetPart,
        Mnemonic::RandomizeX,
        Mnemonic::RandomizeY,
        Mnemonic::BccX,
        Mnemonic::BcsX,
        Mnemonic::BccY,
        Mnemonic::BcsY,
        Mnemonic::ShootAim,
        Mnemonic::ChangeMusic,
    ]
}

/// The first mnemonic from position `i` of [`all_mnemonics`] on that is spelled `word`.
pub open spec fn lookup_from(word: Seq<u8>, i: nat) -> Option<Mnemonic>
    decreases 24 - i,
{
    if i >= 24 {
        None
    } else if mnemonic_text(all_mnemonics()[i as int]) == word {
        Some(all_mnemonics()[i as int])
    } else {
        lookup_from(word, i + 1)
    }
}

/// The mnemonic spelled `word`, if any.
pub open spec fn lookup_mnemonic(word: Seq<u8>) -> Option<Mnemonic> {
    lookup_from(word, 0)
}

/// The byte classes the lexer scans over.
#[derive(Clone, Copy, Debug, PartialEq, Eq, Structural)]
pub enum Class {
    Space,
    Word,
    Bin,
    Oct,
    Dec,
    Hex,
}

pub open spec fn in_class(b: u8, c: Class) -> bool {
    match c {
        Class::Space => b == SPACE || (0x09 <= b <= 0x0D),
        Class::Word => (LOWER_A <= b <= LOWER_Z) || (UPPER_A <= b <= UPPER_Z) || (DIGIT_0 <= b <= DIGIT_9) || b
            == UNDERSCORE,
        Class::Bin => b == DIGIT_0 || b == DIGIT_1,
        Class::Oct => DIGIT_0 <= b <= DIGIT_7,
        Class::Dec => DIGIT_0 <= b <= DIGIT_9,
        Class::Hex => (DIGIT_0 <= b <= DIGIT_9) || (LOWER_A <= b <= LOWER_F) || (UPPER_A <= b <= UPPER_F),
    }
}

pub open spec fn is_ident_start(b: u8) -> bool {
    (LOWER_A <= b <= LOWER_Z) || (UPPER_A <= b <= UPPER_Z) || b == UNDERSCORE
}

/// The first index at or after `i` whose byte is not in class `c`.
pub open spec fn scan_spec(s: Seq<u8>, i: nat, c: Class) -> nat
    decreases s.len() - i,
{
    if i >= s.len() || !in_class(s[i as int], c) {
        i
    } else {
        scan_spec(s, i + 1, c)
    }
}

pub open spec fn radix_of(c: Class) -> nat {
    match c {
        Class::Bin => 2,
        Class::Oct => 8,
        Class::Hex => 16,
        _ => 10,
    }
}

/// The value of one digit.
pub open spec fn digit_value(b: u8) -> nat {
    if DIGIT_0 <= b <= DIGIT_9 {
        (b - DIGIT_0) as nat
    } else if LOWER_A <= b <= LOWER_F {
        (b - LOWER_A + 10) as nat
    } else {
        (b - UPPER_A + 10) as nat
    }
}

/// The value of a string of digits in base `radix`.
pub open spec fn digits_value(s: Seq<u8>, radix: nat) -> nat
    decreases s.len(),
{
    if s.len() == 0 {
        0
    } else {
        digits_value(s.drop_last(), radix) * radix + digit_value(s.last())
    }
}

/// What a token is.
#[derive(Clone, Copy, Debug, PartialEq, Eq, Structural)]
pub enum TokenKind {
    Mnemonic(Mnemonic),
    /// An identifier followed by `:`; the name is the token's text without the colon.
    LabelDefinition,
    LabelReference,
    Number(u8),
    Comma,
    /// Text that is no token, or a number too large for a byte.
    Error,
}

/// A token and where its text lies in the line.
#[derive(Clone, Copy, Debug, PartialEq, Eq, Structural)]
pub struct Token {
    pub kind: TokenKind,
    pub start: usize,
    pub end: usize,
}

/// A number with base prefix `0b`, `0o` or `0x` at `i` (the `0` at `i`), if the
/// prefix is followed by a digit of its base.
pub open spec fn prefixed_class(s: Seq<u8>, i: nat) -> Option<Class> {
    if i + 2 < s.len() && s[i as int] == DIGIT_0 {
        let p = s[(i + 1) as int];
        let c = if p == LOWER_X {
            Class::Hex
        } else if p == LOWER_O {
            Class::Oct
        } else {
            Class::Bin
        };
        if (p == LOWER_X || p == LOWER_O || p == LOWER_B) && in_class(s[(i + 2) as int], c) {
            Some(c)
        } else {
            None
        }
    } else {
        None
    }
}

/// The number token whose digits of class `c` run from `d` on; it starts at `i`.
pub open spec fn number_token(s: Seq<u8>, i: nat, d: nat, c: Class) -> Token {
    let end = scan_spec(s, d, c);
    let v = digits_value(s.subrange(d as int, end as int), radix_of(c));
    Token {
        kind: if v <= 255 { TokenKind::Number(v as u8) } else { TokenKind::Error },
        start: i as usize,
        end: end as usize,
    }
}

/// The next token of `s` at or after `pos`, or `None` at the end of the line.
#[verifier::opaque]
pub open spec fn next_token_spec(s: Seq<u8>, pos: nat) -> Option<Token> {
    let i = scan_spec(s, pos, Class::Space);
    if i >= s.len() {
        None
    } else {
        let b = s[i as int];
        if is_ident_start(b) {
            let e = scan_spec(s, i, Class::Word);
            if e < s.len() && s[e as int] == COLON {
                Some(Token { kind: TokenKind::LabelDefinition, start: i as usize, end: (e + 1) as usize })
            } else {
                Some(
                    Token {
                        kind: match lookup_mnemonic(s.subrange(i as int, e as int)) {
                            Some(m) => TokenKind::Mnemonic(m),
                            None => TokenKind::LabelReference,
                        },
                        start: i as usize,
                        end: e as usize,
                    },
                )
            }
        } else if in_class(b, Class::Dec) {
            match prefixed_class(s, i) {
                Some(c) => Some(number_token(s, i, i + 2, c)),
                None => Some(number_token(s, i, i, Class::Dec)),
            }
        } else if b == COMMA {
            Some(Token { kind: TokenKind::Comma, start: i as usize, end: (i + 1) as usize })
        } else {
            Some(Token { kind: TokenKind::Error, start: i as usize, end: (i + 1) as usize })
        }
    }
}

/// The index of the first byte at or after `i` not in class `c`.
pub fn scan(s: &[u8], i: usize, c: Class) -> (r: usize)
    requires
        i <= s@.len(),
    ensures
        r == scan_spec(s@, i as nat, c),
        i <= r <= s@.len(),
{
    let mut j = i;
    while j < s.len() && class_has(s[j], c)
        invariant
            i <= j <= s@.len(),
            scan_spec(s@, i as nat, c) == scan_spec(s@, j as nat, c),
        decreases s@.len() - j,
    {
        j = j + 1;
    }
    j
}

fn class_has(b: u8, c: Class) -> (r: bool)
    ensures
        r == in_class(b, c),
{
    match c {
        Class::Space => b == SPACE || (0x09 <= b && b <= 0x0D),
        Class::Word => (LOWER_A <= b && b <= LOWER_Z) || (UPPER_A <= b && b <= UPPER_Z) || (DIGIT_0 <= b && b
            <= DIGIT_9) || b == UNDERSCORE,
        Class::Bin => b == DIGIT_0 || b == DIGIT_1,
        Class::Oct => DIGIT_0 <= b && b <= DIGIT_7,
        Class::Dec => DIGIT_0 <= b && b <= DIGIT_9,
        Class::Hex => (DIGIT_0 <= b && b <= DIGIT_9) || (LOWER_A <= b && b <= LOWER_F) || (UPPER_A <= b && b
            <= UPPER_F),
    }
}

/// The mnemonic at position `i` of [`all_mnemonics`].
fn mnemonic_at(i: usize) -> (r: Mnemonic)
    requires
        i < 24,
    ensures
        r == all_mnemonics()[i as int],
{
    match i {
        0 => Mnemonic::Move,
        1 => Mnemonic::Jump,
        2 => Mnemonic::SetSleepTimer,
        3 => Mnemonic::LoopBegin,
        4 => Mnemonic::LoopEnd,
        5 => Mnemonic::ShootDirection,
        6 => Mnemonic::SetSprite,
        7 => Mnemonic::SetHomingTimer,
        8 => Mnemonic::SetInversion,
        9 => Mnemonic::SetPosition,
        10 => Mnemonic::SetJumpOnDamage,
        11 => Mnemonic::UnsetJumpOnDamage,
        12 => Mnemonic::SetHealth,
        13 => Mnemonic::IncrementSprite,
        14 => Mnemonic::DecrementSprite,
        15 => Mnemonic::SetPart,
        16 => Mnemonic::RandomizeX,
        17 => Mnemonic::RandomizeY,
        18 => Mnemonic::BccX,
        19 => Mnemonic::BcsX,
        20 => Mnemonic::BccY,
        21 => Mnemonic::BcsY,
        22 => Mnemonic::ShootAim,
        _ => Mnemonic::ChangeMusic,
    }
}

/// The spelling of a mnemonic.
pub fn mnemonic_bytes(m: Mnemonic) -> (r: Vec<u8>)
    ensures
        r@ == mnemonic_text(m),
{
    let r = match m {
        Mnemonic::Move => vec![0x6D, 0x6F, 0x76, 0x65],  // move
        Mnemonic::Jump => vec![0x6A, 0x75, 0x6D, 0x70],  // jump
        Mnemonic::SetSleepTimer => vec![0x73, 0x65, 0x74, 0x5F, 0x73, 0x6C, 0x65, 0x65, 0x70, 0x5F, 0x74, 0x69, 0x6D, 0x65, 0x72],  // set_sleep_timer
        Mnemonic::LoopBegin => vec![0x6C, 0x6F, 0x6F, 0x70, 0x5F, 0x62, 0x65, 0x67, 0x69, 0x6E],  // loop_begin
        Mnemonic::LoopEnd => vec![0x6C, 0x6F, 0x6F, 0x70, 0x5F, 0x65, 0x6E, 0x64],  // loop_end
        Mnemonic::ShootDirection => vec![0x73, 0x68, 0x6F, 0x6F, 0x74, 0x5F, 0x64, 0x69, 0x72, 0x65, 0x63, 0x74, 0x69, 0x6F, 0x6E],  // shoot_direction
        Mnemonic::SetSprite => vec![0x73, 0x65, 0x74, 0x5F, 0x73, 0x70, 0x72, 0x69, 0x74, 0x65],  // set_sprite
        Mnemonic::SetHomingTimer => vec![0x73, 0x65, 0x74, 0x5F, 0x68, 0x6F, 0x6D, 0x69, 0x6E, 0x67, 0x5F, 0x74, 0x69, 0x6D, 0x65, 0x72],  // set_homing_timer
        Mnemonic::SetInversion => vec![0x73, 0x65, 0x74, 0x5F, 0x69, 0x6E, 0x76, 0x65, 0x72, 0x73, 0x69, 0x6F, 0x6E],  // set_inversion
        Mnemonic::SetPosition => vec![0x73, 0x65, 0x74, 0x5F, 0x70, 0x6F, 0x73, 0x69, 0x74, 0x69, 0x6F, 0x6E],  // set_position
        Mnemonic::SetJumpOnDamage => vec![0x73, 0x65, 0x74, 0x5F, 0x6A, 0x75, 0x6D, 0x70, 0x5F, 0x6F, 0x6E, 0x5F, 0x64, 0x61, 0x6D, 0x61, 0x67, 0x65],  // set_jump_on_damage
        Mnemonic::UnsetJumpOnDamage => vec![0x75, 0x6E, 0x73, 0x65, 0x74, 0x5F, 0x6A, 0x75, 0x6D, 0x70, 0x5F, 0x6F, 0x6E, 0x5F, 0x64, 0x61, 0x6D, 0x61, 0x67, 0x65],  // unset_jump_on_damage
        Mnemonic::SetHealth => vec![0x73, 0x65, 0x74, 0x5F, 0x68, 0x65, 0x61, 0x6C, 0x74, 0x68],  // set_health
        Mnemonic::IncrementSprite => vec![0x69, 0x6E, 0x63, 0x72, 0x65, 0x6D, 0x65, 0x6E, 0x74, 0x5F, 0x73, 0x70, 0x72, 0x69, 0x74, 0x65],  // increment_sprite
        Mnemonic::DecrementSprite => vec![0x64, 0x65, 0x63, 0x72, 0x65, 0x6D, 0x65, 0x6E, 0x74, 0x5F, 0x73, 0x70, 0x72, 0x69, 0x74, 0x65],  // decrement_sprite
        Mnemonic::SetPart => vec![0x73, 0x65, 0x74, 0x5F, 0x70, 0x61, 0x72, 0x74],  // set_part
        Mnemonic::RandomizeX => vec![0x72, 0x61, 0x6E, 0x64, 0x6F, 0x6D, 0x69, 0x7A, 0x65, 0x5F, 0x78],  // randomize_x
        Mnemonic::RandomizeY => vec![0x72, 0x61, 0x6E, 0x64, 0x6F, 0x6D, 0x69, 0x7A, 0x65, 0x5F, 0x79],  // randomize_y
        Mnemonic::BccX => vec![0x62, 0x63, 0x63, 0x5F, 0x78],  // bcc_x
        Mnemonic::BcsX => vec![0x62, 0x63, 0x73, 0x5F, 0x78],  // bcs_x
        Mnemonic::BccY => vec![0x62, 0x63, 0x63, 0x5F, 0x79],  // bcc_y
        Mnemonic::BcsY => vec![0x62, 0x63, 0x73, 0x5F, 0x79],  // bcs_y
        Mnemonic::ShootAim => vec![0x73, 0x68, 0x6F, 0x6F, 0x74, 0x5F, 0x61, 0x69, 0x6D],  // shoot_aim
        Mnemonic::ChangeMusic => vec![0x63, 0x68, 0x61, 0x6E, 0x67, 0x65, 0x5F, 0x6D, 0x75, 0x73, 0x69, 0x63],  // change_music
    };
    proof {
        assert(r@ =~= mnemonic_text(m));
    }
    r
}

/// Whether `s[start..end]` spells `w`.
fn spells(s: &[u8], start: usize, end: usize, w: &Vec<u8>) -> (r: bool)
    requires
        start <= end <= s@.len(),
    ensures
        r == (s@.subrange(start as int, end as int) == w@),
{
    if end - start != w.len() {
        proof {
            assert(s@.subrange(start as int, end as int).len() != w@.len());
        }
        return false;
    }
    let mut k: usize = 0;
    while k < w.len()
        invariant
            start <= end <= s@.len(),
            end - start == w@.len(),
            k <= w@.len(),
            forall|j: int| 0 <= j < k ==> s@[start + j] == w@[j],
        decreases w@.len() - k,
    {
        if s[start + k] != w[k] {
            proof {
                assert(s@.subrange(start as int, end as int)[k as int] != w@[k as int]);
            }
            return false;
        }
        k = k + 1;
    }
    proof {
        assert(s@.subrange(start as int, end as int) =~= w@);
    }
    true
}

/// The mnemonic spelled by `s[start..end]`, if any.
pub fn lookup(s: &[u8], start: usize, end: usize) -> (r: Option<Mnemonic>)
    requires
        start <= end <= s@.len(),
    ensures
        r == lookup_mnemonic(s@.subrange(start as int, end as int)),
{
    let ghost word = s@.subrange(start as int, end as int);
    let mut i: usize = 0;
    while i < 24
        invariant
            i <= 24,
            start <= end <= s@.len(),
            word == s@.subrange(start as int, end as int),
            lookup_mnemonic(word) == lookup_from(word, i as nat),
        decreases 24 - i,
    {
        let m = mnemonic_at(i);
        let w = mnemonic_bytes(m);
        if spells(s, start, end, &w) {
            return Some(m);
        }
        i = i + 1;
    }
    None
}

/// The value of the digits `s[start..end]` of class `c`, or `None` when it
/// does not fit in a byte.
fn number_value(s: &[u8], start: usize, end: usize, c: Class) -> (r: Option<u8>)
    requires
        start <= end <= s@.len(),
        forall|j: int| start <= j < end ==> in_class(#[trigger] s@[j], c),
        c != Class::Space && c != Class::Word,
    ensures
        r == (if digits_value(s@.subrange(start as int, end as int), radix_of(c)) <= 255 {
            Some(digits_value(s@.subrange(start as int, end as int), radix_of(c)) as u8)
        } else {
            None::<u8>
        }),
{
    let radix: u32 = match c {
        Class::Bin => 2,
        Class::Oct => 8,
        Class::Hex => 16,
        _ => 10,
    };
    let mut v: u32 = 0;
    let mut over = false;
    let mut k = start;
    while k < end
        invariant
            start <= k <= end <= s@.len(),
            radix == radix_of(c),
            2 <= radix <= 16,
            forall|j: int| start <= j < end ==> in_class(#[trigger] s@[j], c),
            c != Class::Space && c != Class::Word,
            over ==> digits_value(s@.subrange(start as int, k as int), radix_of(c)) > 255,
            !over ==> v == digits_value(s@.subrange(start as int, k as int), radix_of(c)),
            !over ==> v <= 255,
        decreases end - k,
    {
        let b = s[k];
        assert(in_class(s@[k as int], c));
        let d: u32 = if DIGIT_0 <= b && b <= DIGIT_9 {
            (b - DIGIT_0) as u32
        } else if LOWER_A <= b && b <= LOWER_F {
            (b - LOWER_A + 10) as u32
        } else {
            (b - UPPER_A + 10) as u32
        };
        let ghost pre = s@.subrange(start as int, k as int);
        let ghost next = s@.subrange(start as int, k + 1);
        proof {
            assert(next.drop_last() =~= pre);
            assert(next.last() == b);
            assert(d == digit_value(b));
        }
        if !over {
            assert(v * radix <= 255 * 16) by (nonlinear_arith)
                requires v <= 255, radix <= 16;
            v = v * radix + d;
            if v > 255 {
                over = true;
            }
        } else {
            proof {
                let pv = digits_value(pre, radix_of(c));
                assert(pv * radix >= pv) by (nonlinear_arith)
                    requires radix >= 2, pv >= 0;
            }
        }
        k = k + 1;
    }
    if over {
        None
    } else {
        Some(v as u8)
    }
}

/// The next token of `s` at or after `pos`, or `None` at the end of the line.
pub fn next_token(s: &[u8], pos: usize) -> (r: Option<Token>)
    requires
        pos <= s@.len(),
    ensures
        r == next_token_spec(s@, pos as nat),
        r matches Some(t) ==> pos <= t.start < t.end <= s@.len(),
{
    reveal(next_token_spec);
    let i = scan(s, pos, Class::Space);
    if i >= s.len() {
        return None;
    }
    let b = s[i];
    if (LOWER_A <= b && b <= LOWER_Z) || (UPPER_A <= b && b <= UPPER_Z) || b == UNDERSCORE {
        let e = scan(s, i, Class::Word);
        proof {
            lemma_scan_in_class(s@, i as nat, Class::Word);
        }
        if e < s.len() && s[e] == COLON {
            return Some(Token { kind: TokenKind::LabelDefinition, start: i, end: e + 1 });
        }
        let kind = match lookup(s, i, e) {
            Some(m) => TokenKind::Mnemonic(m),
            None => TokenKind::LabelReference,
        };
        Some(Token { kind, start: i, end: e })
    } else if DIGIT_0 <= b && b <= DIGIT_9 {
        let mut d = i;
        let mut c = Class::Dec;
        if s.len() - i > 2 && b == DIGIT_0 {
            let p = s[i + 1];
            let pc = if p == LOWER_X {
                Class::Hex
            } else if p == LOWER_O {
                Class::Oct
            } else {
                Class::Bin
            };
            if (p == LOWER_X || p == LOWER_O || p == LOWER_B) && class_has(s[i + 2], pc) {
                d = i + 2;
                c = pc;
            }
        }
        let end = scan(s, d, c);
        proof {
            lemma_scan_in_class(s@, d as nat, c);
        }
        let kind = match number_value(s, d, end, c) {
            Some(v) => TokenKind::Number(v),
            None => TokenKind::Error,
        };
        Some(Token { kind, start: i, end })
    } else if b == COMMA {
        Some(Token { kind: TokenKind::Comma, start: i, end: i + 1 })
    } else {
        Some(Token { kind: TokenKind::Error, start: i, end: i + 1 })
    }
}

/// Every byte that a scan passes over is in the class, and a scan from a
/// byte of the class moves on.
pub proof fn lemma_scan_in_class(s: Seq<u8>, i: nat, c: Class)
    ensures
        forall|j: int| i <= j < scan_spec(s, i, c) ==> in_class(#[trigger] s[j], c),
        i <= scan_spec(s, i, c),
        scan_spec(s, i, c) <= s.len() || scan_spec(s, i, c) == i,
        i < s.len() && in_class(s[i as int], c) ==> i < scan_spec(s, i, c),
    decreases s.len() - i,
{
    if i < s.len() && in_class(s[i as int], c) {
        lemma_scan_in_class(s, i + 1, c);
    }
}

} // verus!
