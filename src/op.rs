//! The instruction set: its variants, their encoding and decoding.

use vstd::prelude::*;

use crate::direction::Direction;

verus! {

broadcast use crate::direction::group_direction;

/// Why a byte sequence does not start with an instruction.
#[derive(Clone, Copy, Debug, PartialEq, Eq, Structural)]
pub enum DecodeError {
    /// The opcode needs operand bytes that the buffer does not hold.
    Incomplete { opcode: u8 },
    /// No instruction has this opcode.
    Undefined { opcode: u8 },
}

pub type DecodeResult<T> = Result<T, DecodeError>;

/// One instruction of the enemy bytecode.
#[derive(Clone, Copy, Debug, PartialEq, Eq, Structural)]
pub enum Op {
    Move(Direction),
    Jump(u8),
    SetSleepTimer(u8),
    LoopBegin(u8),
    LoopEnd,
    ShootDirection(Direction),
    SetSprite(u8),
    SetHomingTimer(u8),
    SetInversion(bool, bool),
    SetPosition(u8, u8),
    /// For a minion, where to jump when hit; for a boss, its health. The two
    /// share one encoding, so the instruction set keeps them as one.
    SetJumpOnDamage(u8),
    IncrementSprite,
    DecrementSprite,
    SetPart(u8),
    RandomizeX(u8),
    RandomizeY(u8),
    BccX(u8),
    BcsX(u8),
    BccY(u8),
    BcsY(u8),
    /// Opcodes `0xC0..=0xCF` all act alike; the low nibble is kept so that
    /// the bytes survive a round trip.
    ShootAim(u8),
    ChangeMusic(u8),
}

/// Whether `b` is a valid operand in `0..=0xF`.
pub open spec fn is_nibble(b: u8) -> bool {
    b <= 0xF
}

/// The instruction that a byte sequence starts with.
#[verifier::opaque]
pub open spec fn decode_spec(buf: Seq<u8>) -> DecodeResult<Op>
    recommends
        buf.len() > 0,
{
    let opcode = buf[0];
    if opcode <= 0x3F {
        Ok(Op::Move(Direction::spec_new(opcode)))
    } else if opcode == 0x40 {
        if buf.len() < 2 { Err(DecodeError::Incomplete { opcode }) } else { Ok(Op::Jump(buf[1])) }
    } else if opcode <= 0x4F {
        Ok(Op::SetSleepTimer(opcode & 0xF))
    } else if opcode == 0x51 {
        Ok(Op::LoopEnd)
    } else if opcode <= 0x5F {
        Ok(Op::LoopBegin(opcode & 0xF))
    } else if opcode <= 0x6F {
        Ok(Op::ShootDirection(Direction::spec_new(opcode & 0xF)))
    } else if opcode <= 0x7F {
        Ok(Op::SetSprite(opcode & 0xF))
    } else if opcode <= 0x8F {
        Ok(Op::SetHomingTimer(opcode & 0xF))
    } else if opcode <= 0x93 {
        Ok(Op::SetInversion(opcode & 1 != 0, opcode & 2 != 0))
    } else if opcode == 0xA0 {
        if buf.len() < 3 {
            Err(DecodeError::Incomplete { opcode })
        } else {
            Ok(Op::SetPosition(buf[1], buf[2]))
        }
    } else if opcode == 0xA2 {
        Ok(Op::IncrementSprite)
    } else if opcode == 0xA3 {
        Ok(Op::DecrementSprite)
    } else if opcode == 0xA1 || (0xA4 <= opcode <= 0xA6) || (0xB0 <= opcode <= 0xB3) {
        if buf.len() < 2 {
            Err(DecodeError::Incomplete { opcode })
        } else {
            let b = buf[1];
            Ok(
                if opcode == 0xA1 {
                    Op::SetJumpOnDamage(b)
                } else if opcode == 0xA4 {
                    Op::SetPart(b)
                } else if opcode == 0xA5 {
                    Op::RandomizeX(b)
                } else if opcode == 0xA6 {
                    Op::RandomizeY(b)
                } else if opcode == 0xB0 {
                    Op::BccX(b)
                } else if opcode == 0xB1 {
                    Op::BcsX(b)
                } else if opcode == 0xB2 {
                    Op::BccY(b)
                } else {
                    Op::BcsY(b)
                },
            )
        }
    } else if 0xC0 <= opcode <= 0xCF {
        Ok(Op::ShootAim(opcode & 0xF))
    } else if 0xF0 <= opcode {
        Ok(Op::ChangeMusic(opcode & 0xF))
    } else {
        Err(DecodeError::Undefined { opcode })
    }
}

impl Op {
    /// The operand ranges that the constructors enforce.
    pub open spec fn wf(self) -> bool {
        match self {
            Op::Move(d) => d.idx() <= 0x3F,
            Op::SetSleepTimer(n) => is_nibble(n),
            Op::LoopBegin(n) => is_nibble(n) && n != 1,
            Op::ShootDirection(d) => is_nibble(d.idx()),
            Op::SetSprite(n) => is_nibble(n),
            Op::SetHomingTimer(n) => is_nibble(n),
            Op::ShootAim(n) => is_nibble(n),
            Op::ChangeMusic(n) => is_nibble(n),
            _ => true,
        }
    }

    /// The number of bytes of the encoding.
    pub open spec fn spec_len(self) -> nat {
        match self {
            Op::Jump(..) | Op::SetJumpOnDamage(..) | Op::SetPart(..) | Op::RandomizeX(..)
            | Op::RandomizeY(..) | Op::BccX(..) | Op::BcsX(..) | Op::BccY(..) | Op::BcsY(
                ..,
            ) => 2,
            Op::SetPosition(..) => 3,
            _ => 1,
        }
    }

    /// The encoding.
    pub open spec fn bytes(self) -> Seq<u8> {
        match self {
            Op::Move(d) => seq![d.idx()],
            Op::Jump(a) => seq![0x40, a],
            Op::SetSleepTimer(n) => seq![0x40 | n],
            Op::LoopBegin(n) => seq![0x50 | n],
            Op::LoopEnd => seq![0x51],
            Op::ShootDirection(d) => seq![0x60 | d.idx()],
            Op::SetSprite(n) => seq![0x70 | n],
            Op::SetHomingTimer(n) => seq![0x80 | n],
            Op::SetInversion(ix, iy) => seq![
                (0x90 + (if ix { 1u8 } else { 0u8 }) + (if iy { 2u8 } else { 0u8 })) as u8,
            ],
            Op::SetPosition(x, y) => seq![0xA0, x, y],
            Op::SetJumpOnDamage(a) => seq![0xA1, a],
            Op::IncrementSprite => seq![0xA2],
            Op::DecrementSprite => seq![0xA3],
            Op::SetPart(p) => seq![0xA4, p],
            Op::RandomizeX(m) => seq![0xA5, m],
            Op::RandomizeY(m) => seq![0xA6, m],
            Op::BccX(a) => seq![0xB0, a],
            Op::BcsX(a) => seq![0xB1, a],
            Op::BccY(a) => seq![0xB2, a],
            Op::BcsY(a) => seq![0xB3, a],
            Op::ShootAim(n) => seq![0xC0 | n],
            Op::ChangeMusic(n) => seq![0xF0 | n],
        }
    }

    /// The address that a branch-bearing instruction refers to.
    pub open spec fn target(self) -> Option<u8> {
        match self {
            Op::Jump(a) | Op::SetJumpOnDamage(a) | Op::BccX(a) | Op::BcsX(a) | Op::BccY(a)
            | Op::BcsY(a) => Some(a),
            _ => None,
        }
    }

    pub fn new_move(dir: Direction) -> (r: Self)
        ensures
            r == Op::Move(dir),
    {
        Op::Move(dir)
    }

    pub fn new_jump(addr: u8) -> (r: Self)
        ensures
            r == Op::Jump(addr),
    {
        Op::Jump(addr)
    }

    pub fn new_set_sleep_timer(idx: u8) -> (r: Self)
        requires
            is_nibble(idx),
        ensures
            r == Op::SetSleepTimer(idx),
    {
        Op::SetSleepTimer(idx)
    }

    pub fn new_loop_begin(idx: u8) -> (r: Self)
        requires
            is_nibble(idx),
            idx != 1,
        ensures
            r == Op::LoopBegin(idx),
    {
        Op::LoopBegin(idx)
    }

    pub fn new_loop_end() -> (r: Self)
        ensures
            r == Op::LoopEnd,
    {
        Op::LoopEnd
    }

    pub fn new_shoot_direction(dir: Direction) -> (r: Self)
        requires
            is_nibble(dir.idx()),
        ensures
            r == Op::ShootDirection(dir),
    {
        Op::ShootDirection(dir)
    }

    pub fn new_set_sprite(idx: u8) -> (r: Self)
        requires
            is_nibble(idx),
        ensures
            r == Op::SetSprite(idx),
    {
        Op::SetSprite(idx)
    }

    pub fn new_set_homing_timer(idx: u8) -> (r: Self)
        requires
            is_nibble(idx),
        ensures
            r == Op::SetHomingTimer(idx),
    {
        Op::SetHomingTimer(idx)
    }

    pub fn new_set_inversion(inv_x: bool, inv_y: bool) -> (r: Self)
        ensures
            r == Op::SetInversion(inv_x, inv_y),
    {
        Op::SetInversion(inv_x, inv_y)
    }

    pub fn new_set_position(x: u8, y: u8) -> (r: Self)
        ensures
            r == Op::SetPosition(x, y),
    {
        Op::SetPosition(x, y)
    }

    pub fn new_set_jump_on_damage(addr: u8) -> (r: Self)
        ensures
            r == Op::SetJumpOnDamage(addr),
    {
        Op::SetJumpOnDamage(addr)
    }

    pub fn new_increment_sprite() -> (r: Self)
        ensures
            r == Op::IncrementSprite,
    {
        Op::IncrementSprite
    }

    pub fn new_decrement_sprite() -> (r: Self)
        ensures
            r == Op::DecrementSprite,
    {
        Op::DecrementSprite
    }

    pub fn new_set_part(part: u8) -> (r: Self)
        ensures
            r == Op::SetPart(part),
    {
        Op::SetPart(part)
    }

    pub fn new_randomize_x(mask: u8) -> (r: Self)
        ensures
            r == Op::RandomizeX(mask),
    {
        Op::RandomizeX(mask)
    }

    pub fn new_randomize_y(mask: u8) -> (r: Self)
        ensures
            r == Op::RandomizeY(mask),
    {
        Op::RandomizeY(mask)
    }

    pub fn new_bcc_x(addr: u8) -> (r: Self)
        ensures
            r == Op::BccX(addr),
    {
        Op::BccX(addr)
    }

    pub fn new_bcs_x(addr: u8) -> (r: Self)
        ensures
            r == Op::BcsX(addr),
    {
        Op::BcsX(addr)
    }

    pub fn new_bcc_y(addr: u8) -> (r: Self)
        ensures
            r == Op::BccY(addr),
    {
        Op::BccY(addr)
    }

    pub fn new_bcs_y(addr: u8) -> (r: Self)
        ensures
            r == Op::BcsY(addr),
    {
        Op::BcsY(addr)
    }

    pub fn new_shoot_aim(unused: u8) -> (r: Self)
        requires
            is_nibble(unused),
        ensures
            r == Op::ShootAim(unused),
    {
        Op::ShootAim(unused)
    }

    pub fn new_change_music(music: u8) -> (r: Self)
        requires
            is_nibble(music),
        ensures
            r == Op::ChangeMusic(music),
    {
        Op::ChangeMusic(music)
    }

    pub fn len(self) -> (r: usize)
        ensures
            r == self.spec_len(),
    {
        match self {
            Op::Move(..) => 1,
            Op::Jump(..) => 2,
            Op::SetSleepTimer(..) => 1,
            Op::LoopBegin(..) => 1,
            Op::LoopEnd => 1,
            Op::ShootDirection(..) => 1,
            Op::SetSprite(..) => 1,
            Op::SetHomingTimer(..) => 1,
            Op::SetInversion(..) => 1,
            Op::SetPosition(..) => 3,
            Op::SetJumpOnDamage(..) => 2,
            Op::IncrementSprite => 1,
            Op::DecrementSprite => 1,
            Op::SetPart(..) => 2,
            Op::RandomizeX(..) => 2,
            Op::RandomizeY(..) => 2,
            Op::BccX(..) => 2,
            Op::BcsX(..) => 2,
            Op::BccY(..) => 2,
            Op::BcsY(..) => 2,
            Op::ShootAim(..) => 1,
            Op::ChangeMusic(..) => 1,
        }
    }

    pub fn addr_destination(self) -> (r: Option<u8>)
        ensures
            r == self.target(),
    {
        match self {
            Op::Jump(addr) => Some(addr),
            Op::SetJumpOnDamage(addr) => Some(addr),
            Op::BccX(addr) => Some(addr),
            Op::BcsX(addr) => Some(addr),
            Op::BccY(addr) => Some(addr),
            Op::BcsY(addr) => Some(addr),
            _ => None,
        }
    }
}


impl Op {
    pub fn decode(buf: &[u8]) -> (r: DecodeResult<Self>)
        requires
            buf@.len() > 0,
        ensures
            r == decode_spec(buf@),
    {
        reveal(decode_spec);
        let opcode = buf[0];
        proof {
            assert(opcode & 0xF <= 0xF) by (bit_vector);
        }
        if opcode <= 0x3F {
            Ok(Self::new_move(Direction::new(opcode)))
        } else if opcode == 0x40 {
            if buf.len() < 2 {
                return Err(DecodeError::Incomplete { opcode });
            }
            Ok(Self::new_jump(buf[1]))
        } else if opcode <= 0x4F {
            Ok(Self::new_set_sleep_timer(opcode & 0xF))
        } else if opcode == 0x51 {
            Ok(Self::new_loop_end())
        } else if opcode <= 0x5F {
            proof {
                assert(0x50 <= opcode <= 0x5F && opcode != 0x51 ==> opcode & 0xF != 1) by (bit_vector);
            }
            Ok(Self::new_loop_begin(opcode & 0xF))
        } else if opcode <= 0x6F {
            Ok(Self::new_shoot_direction(Direction::new(opcode & 0xF)))
        } else if opcode <= 0x7F {
            Ok(Self::new_set_sprite(opcode & 0xF))
        } else if opcode <= 0x8F {
            Ok(Self::new_set_homing_timer(opcode & 0xF))
        } else if opcode <= 0x93 {
            Ok(Self::new_set_inversion((opcode & 1) != 0, (opcode & 2) != 0))
        } else if opcode == 0xA0 {
            if buf.len() < 3 {
                return Err(DecodeError::Incomplete { opcode });
            }
            Ok(Self::new_set_position(buf[1], buf[2]))
        } else if opcode == 0xA2 {
            Ok(Self::new_increment_sprite())
        } else if opcode == 0xA3 {
            Ok(Self::new_decrement_sprite())
        } else if opcode == 0xA1 || (0xA4 <= opcode && opcode <= 0xA6) || (0xB0 <= opcode
            && opcode <= 0xB3) {
            if buf.len() < 2 {
                return Err(DecodeError::Incomplete { opcode });
            }
            let b = buf[1];
            Ok(
                if opcode == 0xA1 {
                    Self::new_set_jump_on_damage(b)
                } else if opcode == 0xA4 {
                    Self::new_set_part(b)
                } else if opcode == 0xA5 {
                    Self::new_randomize_x(b)
                } else if opcode == 0xA6 {
                    Self::new_randomize_y(b)
                } else if opcode == 0xB0 {
                    Self::new_bcc_x(b)
                } else if opcode == 0xB1 {
                    Self::new_bcs_x(b)
                } else if opcode == 0xB2 {
                    Self::new_bcc_y(b)
                } else {
                    Self::new_bcs_y(b)
                },
            )
        } else if 0xC0 <= opcode && opcode <= 0xCF {
            Ok(Self::new_shoot_aim(opcode & 0xF))
        } else if 0xF0 <= opcode {
            Ok(Self::new_change_music(opcode & 0xF))
        } else {
            Err(DecodeError::Undefined { opcode })
        }
    }

    /// Writes the encoding at the start of `buf`; the bytes after it are left alone.
    pub fn encode(self, buf: &mut [u8])
        requires
            old(buf)@.len() >= self.spec_len(),
        ensures
            final(buf)@ == self.bytes() + old(buf)@.skip(self.spec_len() as int),
    {
        match self {
            Op::Move(dir) => buf[0] = dir.index(),
            Op::Jump(addr) => {
                buf[0] = 0x40;
                buf[1] = addr;
            },
            Op::SetSleepTimer(idx) => buf[0] = 0x40 | idx,
            Op::LoopBegin(idx) => buf[0] = 0x50 | idx,
            Op::LoopEnd => buf[0] = 0x51,
            Op::ShootDirection(dir) => buf[0] = 0x60 | dir.index(),
            Op::SetSprite(idx) => buf[0] = 0x70 | idx,
            Op::SetHomingTimer(idx) => buf[0] = 0x80 | idx,
            Op::SetInversion(inv_x, inv_y) => {
                let bx: u8 = if inv_x { 1 } else { 0 };
                let by: u8 = if inv_y { 2 } else { 0 };
                buf[0] = 0x90 + bx + by;
            },
            Op::SetPosition(x, y) => {
                buf[0] = 0xA0;
                buf[1] = x;
                buf[2] = y;
            },
            Op::SetJumpOnDamage(addr) => {
                buf[0] = 0xA1;
                buf[1] = addr;
            },
            Op::IncrementSprite => buf[0] = 0xA2,
            Op::DecrementSprite => buf[0] = 0xA3,
            Op::SetPart(part) => {
                buf[0] = 0xA4;
                buf[1] = part;
            },
            Op::RandomizeX(mask) => {
                buf[0] = 0xA5;
                buf[1] = mask;
            },
            Op::RandomizeY(mask) => {
                buf[0] = 0xA6;
                buf[1] = mask;
            },
            Op::BccX(addr) => {
                buf[0] = 0xB0;
                buf[1] = addr;
            },
            Op::BcsX(addr) => {
                buf[0] = 0xB1;
                buf[1] = addr;
            },
            Op::BccY(addr) => {
                buf[0] = 0xB2;
                buf[1] = addr;
            },
            Op::BcsY(addr) => {
                buf[0] = 0xB3;
                buf[1] = addr;
            },
            Op::ShootAim(unused) => buf[0] = 0xC0 | unused,
            Op::ChangeMusic(music) => buf[0] = 0xF0 | music,
        }
        assert(final(buf)@ =~= self.bytes() + old(buf)@.skip(self.spec_len() as int));
    }
}

/// The encoding of every instruction is exactly as long as its length says.
pub proof fn lemma_encoded_length(op: Op)
    ensures
        op.bytes().len() == op.spec_len(),
        1 <= op.spec_len() <= 3,
{
}

/// Decoding the encoding of a well-formed instruction, whatever follows it,
/// gives the instruction back. The one exception is `SetSleepTimer(0)`,
/// whose byte `0x40` is the opcode of `Jump`.
pub proof fn lemma_decode_encode(op: Op, rest: Seq<u8>)
    requires
        op.wf(),
        op != Op::SetSleepTimer(0),
    ensures
        decode_spec(op.bytes() + rest) == Ok::<Op, DecodeError>(op),
{
    reveal(decode_spec);
    let b = op.bytes() + rest;
    assert(b[0] == op.bytes()[0]);
    match op {
        Op::Move(d) => {},
        Op::Jump(a) => {
            assert(b[1] == a);
        },
        Op::SetSleepTimer(n) => {
            assert(n <= 0xF && n != 0 ==> 0x41 <= (0x40 | n) <= 0x4F && (0x40 | n) & 0xF == n)
                by (bit_vector);
        },
        Op::LoopBegin(n) => {
            assert(n <= 0xF && n != 1 ==> 0x50 <= (0x50 | n) <= 0x5F && (0x50 | n) != 0x51
                && (0x50 | n) & 0xF == n) by (bit_vector);
        },
        Op::LoopEnd => {},
        Op::ShootDirection(d) => {
            let i = d.idx();
            assert(i <= 0xF ==> 0x60 <= (0x60 | i) <= 0x6F && (0x60 | i) & 0xF == i)
                by (bit_vector);
        },
        Op::SetSprite(n) => {
            assert(n <= 0xF ==> 0x70 <= (0x70 | n) <= 0x7F && (0x70 | n) & 0xF == n)
                by (bit_vector);
        },
        Op::SetHomingTimer(n) => {
            assert(n <= 0xF ==> 0x80 <= (0x80 | n) <= 0x8F && (0x80 | n) & 0xF == n)
                by (bit_vector);
        },
        Op::SetInversion(ix, iy) => {
            assert((0x90u8 & 1) == 0 && (0x90u8 & 2) == 0) by (bit_vector);
            assert((0x91u8 & 1) == 1 && (0x91u8 & 2) == 0) by (bit_vector);
            assert((0x92u8 & 1) == 0 && (0x92u8 & 2) == 2) by (bit_vector);
            assert((0x93u8 & 1) == 1 && (0x93u8 & 2) == 2) by (bit_vector);
        },
        Op::SetPosition(x, y) => {
            assert(b[1] == x && b[2] == y);
        },
        Op::SetJumpOnDamage(a) | Op::SetPart(a) | Op::RandomizeX(a) | Op::RandomizeY(a)
        | Op::BccX(a) | Op::BcsX(a) | Op::BccY(a) | Op::BcsY(a) => {
            assert(b[1] == a);
        },
        Op::IncrementSprite | Op::DecrementSprite => {},
        Op::ShootAim(n) => {
            assert(n <= 0xF ==> 0xC0 <= (0xC0 | n) <= 0xCF && (0xC0 | n) & 0xF == n)
                by (bit_vector);
        },
        Op::ChangeMusic(n) => {
            assert(n <= 0xF ==> 0xF0 <= (0xF0 | n) && (0xF0 | n) & 0xF == n) by (bit_vector);
        },
    }
}

/// What decoding reads is the encoding of a well-formed instruction at the
/// start of the buffer.
pub proof fn lemma_decoded_prefix(buf: Seq<u8>)
    requires
        buf.len() > 0,
        decode_spec(buf) is Ok,
    ensures
        decode_spec(buf)->Ok_0.wf(),
        decode_spec(buf)->Ok_0.spec_len() <= buf.len(),
        buf.take(decode_spec(buf)->Ok_0.spec_len() as int) == decode_spec(buf)->Ok_0.bytes(),
        decode_spec(buf)->Ok_0 != Op::SetSleepTimer(0),
{
    reveal(decode_spec);
    let op = decode_spec(buf)->Ok_0;
    let c = buf[0];
    assert(c & 0xF <= 0xF) by (bit_vector);
    assert(0x41 <= c <= 0x4F ==> (0x40 | (c & 0xF)) == c && c & 0xF != 0) by (bit_vector);
    assert(0x50 <= c <= 0x5F && c != 0x51 ==> (0x50 | (c & 0xF)) == c && c & 0xF != 1)
        by (bit_vector);
    assert(0x60 <= c <= 0x6F ==> (0x60 | (c & 0xF)) == c) by (bit_vector);
    assert(0x70 <= c <= 0x7F ==> (0x70 | (c & 0xF)) == c) by (bit_vector);
    assert(0x80 <= c <= 0x8F ==> (0x80 | (c & 0xF)) == c) by (bit_vector);
    assert(0xC0 <= c <= 0xCF ==> (0xC0 | (c & 0xF)) == c) by (bit_vector);
    assert(0xF0 <= c ==> (0xF0 | (c & 0xF)) == c) by (bit_vector);
    assert(0x90 <= c <= 0x93 ==> c == 0x90 + (if c & 1 != 0 { 1u8 } else { 0u8 }) + (if c & 2
        != 0 { 2u8 } else { 0u8 })) by (bit_vector);
    assert(buf.take(op.spec_len() as int) =~= op.bytes());
}

} // verus!
