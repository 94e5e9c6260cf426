//! The disassembler: program bytes to source text, with synthesized labels.

use vstd::prelude::*;

use crate::op::{decode_spec, DecodeError, Op};
use crate::syntax::{
    mnemonic_bytes, mnemonic_text, Mnemonic, COLON, COMMA, DIGIT_0, LOWER_X, SPACE, UPPER_A,
};

verus! {

broadcast use crate::direction::group_direction;

/// Why a byte buffer does not disassemble.
#[derive(Clone, Copy, Debug, PartialEq, Eq, Structural)]
pub enum DisasmError {
    /// The bytes at `addr` are no instruction.
    Decode { addr: usize, source: DecodeError },
    /// The branch at `addr` goes to `addr_dst`, outside the buffer.
    InvalidDestination { addr: usize, addr_dst: u8 },
}

pub type DisasmResult<T> = Result<T, DisasmError>;

pub const UPPER_L: u8 = 0x4C;

pub const LINE_FEED: u8 = 0x0A;

/// A decoded instruction and its address. `health` marks a
/// `set_jump_on_damage` whose operand lies outside the buffer, so that it can
/// only be a boss's health.
#[derive(Clone, Copy, Debug, PartialEq, Eq, Structural)]
pub struct Line {
    pub addr: usize,
    pub op: Op,
    pub health: bool,
}

/// Decodes the buffer from `addr` to its end, one instruction after another.
pub open spec fn scan_spec(buf: Seq<u8>, addr: nat) -> DisasmResult<Seq<Line>>
    decreases buf.len() - addr
        via scan_spec_decreases
{
    if addr >= buf.len() {
        Ok(Seq::empty())
    } else {
        match decode_spec(buf.skip(addr as int)) {
            Err(e) => Err(DisasmError::Decode { addr: addr as usize, source: e }),
            Ok(op) => {
                let out = match op.target() {
                    Some(t) => t >= buf.len(),
                    None => false,
                };
                if out && !(op is SetJumpOnDamage) {
                    Err(
                        DisasmError::InvalidDestination {
                            addr: addr as usize,
                            addr_dst: op.target()->Some_0,
                        },
                    )
                } else {
                    let line = Line { addr: addr as usize, op, health: out };
                    match scan_spec(buf, addr + op.spec_len()) {
                        Ok(rest) => Ok(seq![line] + rest),
                        Err(e) => Err(e),
                    }
                }
            },
        }
    }
}

#[via_fn]
proof fn scan_spec_decreases(buf: Seq<u8>, addr: nat) {
    if addr < buf.len() {
        if let Ok(op) = decode_spec(buf.skip(addr as int)) {
            crate::op::lemma_encoded_length(op);
            crate::op::lemma_decoded_prefix(buf.skip(addr as int));
        }
    }
}

/// One of the first `n` instructions starts at `a`.
pub open spec fn boundary_upto(lines: Seq<Line>, n: int, a: int) -> bool {
    exists|k: int| 0 <= k < n && k < lines.len() && #[trigger] lines[k].addr == a
}

/// One of the first `n` instructions branches to `a`.
pub open spec fn target_upto(lines: Seq<Line>, n: int, a: int) -> bool {
    exists|k: int|
        0 <= k < n && k < lines.len() && !lines[k].health && #[trigger] lines[k].op.target()
            == Some(a as u8) && 0 <= a < 256
}

/// Some instruction starts at `a`.
pub open spec fn is_boundary(lines: Seq<Line>, a: int) -> bool {
    boundary_upto(lines, lines.len() as int, a)
}

/// Some branch goes to `a`, which therefore gets a label.
pub open spec fn is_target(lines: Seq<Line>, a: int) -> bool {
    target_upto(lines, lines.len() as int, a)
}

/// An upper-case hexadecimal digit.
pub open spec fn hex_digit(v: u8) -> u8 {
    if v < 10 {
        (DIGIT_0 + v) as u8
    } else {
        (UPPER_A + v - 10) as u8
    }
}

pub open spec fn decimal_digit(v: u8) -> u8 {
    (DIGIT_0 + v) as u8
}

/// Two hexadecimal digits.
pub open spec fn hex2(v: u8) -> Seq<u8> {
    seq![hex_digit(v / 16), hex_digit(v % 16)]
}

/// `0xNN`.
pub open spec fn hex_text(v: u8) -> Seq<u8> {
    seq![DIGIT_0, LOWER_X] + hex2(v)
}

/// The decimal digits of `v`.
pub open spec fn dec_text(v: u8) -> Seq<u8> {
    if v >= 100 {
        seq![decimal_digit(v / 100), decimal_digit((v / 10) % 10), decimal_digit(v % 10)]
    } else if v >= 10 {
        seq![decimal_digit(v / 10), decimal_digit(v % 10)]
    } else {
        seq![decimal_digit(v)]
    }
}

/// The name of the label at address `a`: `L` and two hexadecimal digits.
pub open spec fn label_text(a: u8) -> Seq<u8> {
    seq![UPPER_L] + hex2(a)
}

pub open spec fn bool_text(b: bool) -> Seq<u8> {
    dec_text(if b { 1 } else { 0 })
}

/// A mnemonic, a space and its operands.
pub open spec fn with_operand(m: Mnemonic, t: Seq<u8>) -> Seq<u8> {
    mnemonic_text(m) + seq![SPACE] + t
}

/// The mnemonic form of one instruction.
pub open spec fn op_text(l: Line, lines: Seq<Line>) -> Seq<u8> {
    match l.op {
        Op::Move(d) => with_operand(Mnemonic::Move, hex_text(d.idx())),
        Op::Jump(a) => with_operand(Mnemonic::Jump, label_text(a)),
        Op::SetSleepTimer(n) => with_operand(Mnemonic::SetSleepTimer, dec_text(n)),
        Op::LoopBegin(n) => with_operand(Mnemonic::LoopBegin, dec_text(n)),
        Op::LoopEnd => mnemonic_text(Mnemonic::LoopEnd),
        Op::ShootDirection(d) => with_operand(Mnemonic::ShootDirection, hex_text(d.idx())),
        Op::SetSprite(n) => with_operand(Mnemonic::SetSprite, dec_text(n)),
        Op::SetHomingTimer(n) => with_operand(Mnemonic::SetHomingTimer, dec_text(n)),
        Op::SetInversion(x, y) => with_operand(
            Mnemonic::SetInversion,
            bool_text(x) + seq![COMMA, SPACE] + bool_text(y),
        ),
        Op::SetPosition(x, y) => with_operand(
            Mnemonic::SetPosition,
            dec_text(x) + seq![COMMA, SPACE] + dec_text(y),
        ),
        Op::SetJumpOnDamage(a) => if !l.health && is_boundary(lines, a as int) {
            if a == 0 {
                mnemonic_text(Mnemonic::UnsetJumpOnDamage)
            } else {
                with_operand(Mnemonic::SetJumpOnDamage, label_text(a))
            }
        } else {
            with_operand(Mnemonic::SetHealth, dec_text(a))
        },
        Op::IncrementSprite => mnemonic_text(Mnemonic::IncrementSprite),
        Op::DecrementSprite => mnemonic_text(Mnemonic::DecrementSprite),
        Op::SetPart(p) => with_operand(Mnemonic::SetPart, dec_text(p)),
        Op::RandomizeX(m) => with_operand(Mnemonic::RandomizeX, hex_text(m)),
        Op::RandomizeY(m) => with_operand(Mnemonic::RandomizeY, hex_text(m)),
        Op::BccX(a) => with_operand(Mnemonic::BccX, label_text(a)),
        Op::BcsX(a) => with_operand(Mnemonic::BcsX, label_text(a)),
        Op::BccY(a) => with_operand(Mnemonic::BccY, label_text(a)),
        Op::BcsY(a) => with_operand(Mnemonic::BcsY, label_text(a)),
        Op::ShootAim(n) => with_operand(Mnemonic::ShootAim, dec_text(n)),
        Op::ChangeMusic(n) => with_operand(Mnemonic::ChangeMusic, dec_text(n)),
    }
}

/// Eight spaces.
pub open spec fn indent() -> Seq<u8> {
    Seq::new(8, |i: int| SPACE)
}

/// The text of one instruction: its label line, if a branch goes there, then
/// the indented mnemonic form.
pub open spec fn line_text(l: Line, lines: Seq<Line>) -> Seq<u8> {
    (if is_target(lines, l.addr as int) {
        label_text(l.addr as u8) + seq![COLON, LINE_FEED]
    } else {
        Seq::empty()
    }) + indent() + op_text(l, lines) + seq![LINE_FEED]
}

/// The text of the first `k` instructions.
pub open spec fn render(lines: Seq<Line>, k: nat) -> Seq<u8>
    decreases k,
{
    if k == 0 || k > lines.len() {
        Seq::empty()
    } else {
        render(lines, (k - 1) as nat) + line_text(lines[k - 1], lines)
    }
}

/// The assembly text of a buffer, or the first error in address order.
pub open spec fn disasm_spec(buf: Seq<u8>) -> DisasmResult<Seq<u8>> {
    match scan_spec(buf, 0) {
        Err(e) => Err(e),
        Ok(lines) => Ok(render(lines, lines.len())),
    }
}

/// The scan so far, followed by the scan of the rest.
pub open spec fn prepend(acc: Seq<Line>, r: DisasmResult<Seq<Line>>) -> DisasmResult<Seq<Line>> {
    match r {
        Ok(rest) => Ok(acc + rest),
        Err(e) => Err(e),
    }
}

proof fn lemma_boundary_step(lines: Seq<Line>, n: int, a: int)
    requires
        0 <= n < lines.len(),
    ensures
        boundary_upto(lines, n + 1, a) == (boundary_upto(lines, n, a) || lines[n].addr == a),
        target_upto(lines, n + 1, a) == (target_upto(lines, n, a) || (!lines[n].health
            && lines[n].op.target() == Some(a as u8) && 0 <= a < 256)),
{
    if boundary_upto(lines, n + 1, a) {
        let k = choose|k: int| 0 <= k < n + 1 && k < lines.len() && #[trigger] lines[k].addr == a;
        if k < n {
            assert(boundary_upto(lines, n, a));
        }
    }
    if target_upto(lines, n + 1, a) {
        let k = choose|k: int|
            0 <= k < n + 1 && k < lines.len() && !lines[k].health && #[trigger] lines[k].op.target()
                == Some(a as u8) && 0 <= a < 256;
        if k < n {
            assert(target_upto(lines, n, a));
        }
    }
    if lines[n].addr == a {
        assert(boundary_upto(lines, n + 1, a));
    }
    if !lines[n].health && lines[n].op.target() == Some(a as u8) && 0 <= a < 256 {
        assert(target_upto(lines, n + 1, a));
    }
}

/// The part of a byte slice from `start` on.
fn tail(s: &[u8], start: usize) -> (r: &[u8])
    requires
        start <= s@.len(),
    ensures
        r@ == s@.skip(start as int),
{
    let r = &s[start..s.len()];
    proof {
        assert(r@ =~= s@.skip(start as int));
    }
    r
}

fn push_bytes(out: &mut Vec<u8>, s: &Vec<u8>)
    ensures
        final(out)@ == old(out)@ + s@,
{
    let mut k: usize = 0;
    while k < s.len()
        invariant
            k <= s@.len(),
            out@ == old(out)@ + s@.take(k as int),
        decreases s@.len() - k,
    {
        out.push(s[k]);
        k = k + 1;
        proof {
            assert(out@ =~= old(out)@ + s@.take(k as int));
        }
    }
    proof {
        assert(s@.take(s@.len() as int) =~= s@);
    }
}

fn hex_digit_exec(v: u8) -> (r: u8)
    requires
        v < 16,
    ensures
        r == hex_digit(v),
{
    if v < 10 {
        DIGIT_0 + v
    } else {
        UPPER_A + v - 10
    }
}

fn push_hex2(out: &mut Vec<u8>, v: u8)
    ensures
        final(out)@ == old(out)@ + hex2(v),
{
    out.push(hex_digit_exec(v / 16));
    out.push(hex_digit_exec(v % 16));
    proof {
        assert(final(out)@ =~= old(out)@ + hex2(v));
    }
}

fn push_hex(out: &mut Vec<u8>, v: u8)
    ensures
        final(out)@ == old(out)@ + hex_text(v),
{
    out.push(DIGIT_0);
    out.push(LOWER_X);
    push_hex2(out, v);
    proof {
        assert(final(out)@ =~= old(out)@ + hex_text(v));
    }
}

fn push_dec(out: &mut Vec<u8>, v: u8)
    ensures
        final(out)@ == old(out)@ + dec_text(v),
{
    if v >= 100 {
        out.push(DIGIT_0 + v / 100);
        out.push(DIGIT_0 + (v / 10) % 10);
        out.push(DIGIT_0 + v % 10);
    } else if v >= 10 {
        out.push(DIGIT_0 + v / 10);
        out.push(DIGIT_0 + v % 10);
    } else {
        out.push(DIGIT_0 + v);
    }
    proof {
        assert(final(out)@ =~= old(out)@ + dec_text(v));
    }
}

fn push_label(out: &mut Vec<u8>, a: u8)
    ensures
        final(out)@ == old(out)@ + label_text(a),
{
    out.push(UPPER_L);
    push_hex2(out, a);
    proof {
        assert(final(out)@ =~= old(out)@ + label_text(a));
    }
}

/// Pushes a mnemonic, and a space where operands follow.
fn push_mnemonic(out: &mut Vec<u8>, m: Mnemonic, space: bool)
    ensures
        final(out)@ == old(out)@ + mnemonic_text(m) + (if space {
            seq![SPACE]
        } else {
            Seq::empty()
        }),
{
    let w = mnemonic_bytes(m);
    push_bytes(out, &w);
    if space {
        out.push(SPACE);
    }
    proof {
        assert(final(out)@ =~= old(out)@ + mnemonic_text(m) + (if space {
            seq![SPACE]
        } else {
            Seq::empty()
        }));
    }
}

/// Pushes two operands separated by `, `.
fn push_pair(out: &mut Vec<u8>, a: u8, b: u8)
    ensures
        final(out)@ == old(out)@ + dec_text(a) + seq![COMMA, SPACE] + dec_text(b),
{
    push_dec(out, a);
    out.push(COMMA);
    out.push(SPACE);
    push_dec(out, b);
    proof {
        assert(final(out)@ =~= old(out)@ + dec_text(a) + seq![COMMA, SPACE] + dec_text(b));
    }
}

/// Pushes the mnemonic form of one instruction; `boundary[a]` tells whether
/// an instruction starts at `a`.
fn push_op_text(out: &mut Vec<u8>, l: Line, boundary: &Vec<bool>, lines: Ghost<Seq<Line>>)
    requires
        boundary@.len() == 256,
        forall|a: int| 0 <= a < 256 ==> boundary@[a] == is_boundary(lines@, a),
    ensures
        final(out)@ == old(out)@ + op_text(l, lines@),
{
    let ghost start = out@;
    match l.op {
        Op::Move(d) => {
            push_mnemonic(out, Mnemonic::Move, true);
            push_hex(out, d.index());
        },
        Op::Jump(a) => {
            push_mnemonic(out, Mnemonic::Jump, true);
            push_label(out, a);
        },
        Op::SetSleepTimer(n) => {
            push_mnemonic(out, Mnemonic::SetSleepTimer, true);
            push_dec(out, n);
        },
        Op::LoopBegin(n) => {
            push_mnemonic(out, Mnemonic::LoopBegin, true);
            push_dec(out, n);
        },
        Op::LoopEnd => push_mnemonic(out, Mnemonic::LoopEnd, false),
        Op::ShootDirection(d) => {
            push_mnemonic(out, Mnemonic::ShootDirection, true);
            push_hex(out, d.index());
        },
        Op::SetSprite(n) => {
            push_mnemonic(out, Mnemonic::SetSprite, true);
            push_dec(out, n);
        },
        Op::SetHomingTimer(n) => {
            push_mnemonic(out, Mnemonic::SetHomingTimer, true);
            push_dec(out, n);
        },
        Op::SetInversion(x, y) => {
            push_mnemonic(out, Mnemonic::SetInversion, true);
            push_pair(out, if x { 1 } else { 0 }, if y { 1 } else { 0 });
        },
        Op::SetPosition(x, y) => {
            push_mnemonic(out, Mnemonic::SetPosition, true);
            push_pair(out, x, y);
        },
        Op::SetJumpOnDamage(a) => {
            // An operand that is no instruction boundary can only be a boss's health.
            if !l.health && boundary[a as usize] {
                if a == 0 {
                    push_mnemonic(out, Mnemonic::UnsetJumpOnDamage, false);
                } else {
                    push_mnemonic(out, Mnemonic::SetJumpOnDamage, true);
                    push_label(out, a);
                }
            } else {
                push_mnemonic(out, Mnemonic::SetHealth, true);
                push_dec(out, a);
            }
        },
        Op::IncrementSprite => push_mnemonic(out, Mnemonic::IncrementSprite, false),
        Op::DecrementSprite => push_mnemonic(out, Mnemonic::DecrementSprite, false),
        Op::SetPart(p) => {
            push_mnemonic(out, Mnemonic::SetPart, true);
            push_dec(out, p);
        },
        Op::RandomizeX(m) => {
            push_mnemonic(out, Mnemonic::RandomizeX, true);
            push_hex(out, m);
        },
        Op::RandomizeY(m) => {
            push_mnemonic(out, Mnemonic::RandomizeY, true);
            push_hex(out, m);
        },
        Op::BccX(a) => {
            push_mnemonic(out, Mnemonic::BccX, true);
            push_label(out, a);
        },
        Op::BcsX(a) => {
            push_mnemonic(out, Mnemonic::BcsX, true);
            push_label(out, a);
        },
        Op::BccY(a) => {
            push_mnemonic(out, Mnemonic::BccY, true);
            push_label(out, a);
        },
        Op::BcsY(a) => {
            push_mnemonic(out, Mnemonic::BcsY, true);
            push_label(out, a);
        },
        Op::ShootAim(n) => {
            push_mnemonic(out, Mnemonic::ShootAim, true);
            push_dec(out, n);
        },
        Op::ChangeMusic(n) => {
            push_mnemonic(out, Mnemonic::ChangeMusic, true);
            push_dec(out, n);
        },
    }
    proof {
        assert(out@ =~= start + op_text(l, lines@));
    }
}

/// Disassembles a program into assembly text.
///
/// Decodes the buffer from address 0 to its end; each branch target inside the
/// buffer gets a label `LNN`, written before the instruction at that address.
/// A `set_jump_on_damage` whose operand is no instruction boundary is written
/// as `set_health`, one with operand 0 as `unset_jump_on_damage`. Fails at the
/// first address whose bytes do not decode, or whose branch leaves the buffer.
pub fn disasm(buf: &[u8]) -> (r: DisasmResult<Vec<u8>>)
    ensures
        match disasm_spec(buf@) {
            Ok(t) => r is Ok && r->Ok_0@ == t,
            Err(e) => r == Err::<Vec<u8>, DisasmError>(e),
        },
{
    let mut lines: Vec<Line> = Vec::new();
    let mut addr: usize = 0;
    proof {
        assert(prepend(lines@, scan_spec(buf@, 0)) == scan_spec(buf@, 0)) by {
            if let Ok(rest) = scan_spec(buf@, 0) {
                assert(lines@ + rest =~= rest);
            }
        }
    }
    while addr < buf.len()
        invariant
            addr <= buf@.len(),
            scan_spec(buf@, 0) == prepend(lines@, scan_spec(buf@, addr as nat)),
        decreases buf@.len() - addr,
    {
        let rest = tail(buf, addr);
        let op = match Op::decode(rest) {
            Ok(op) => op,
            Err(e) => return Err(DisasmError::Decode { addr, source: e }),
        };
        proof {
            crate::op::lemma_decoded_prefix(rest@);
        }
        let out = match op.addr_destination() {
            Some(t) => (t as usize) >= buf.len(),
            None => false,
        };
        if out {
            if let Op::SetJumpOnDamage(_) = op {
            } else {
                return Err(
                    DisasmError::InvalidDestination {
                        addr,
                        addr_dst: op.addr_destination().unwrap(),
                    },
                );
            }
        }
        let line = Line { addr, op, health: out };
        let ghost before = lines@;
        lines.push(line);
        addr = addr + op.len();
        proof {
            if let Ok(r2) = scan_spec(buf@, addr as nat) {
                assert(before + (seq![line] + r2) =~= lines@ + r2);
            }
        }
    }
    proof {
        assert(lines@ + Seq::<Line>::empty() =~= lines@);
    }
    let ghost all = lines@;
    let mut boundary: Vec<bool> = vec![false; 256];
    let mut target: Vec<bool> = vec![false; 256];
    let mut k: usize = 0;
    while k < lines.len()
        invariant
            k <= lines@.len(),
            all == lines@,
            boundary@.len() == 256,
            target@.len() == 256,
            forall|a: int| 0 <= a < 256 ==> boundary@[a] == boundary_upto(all, k as int, a),
            forall|a: int| 0 <= a < 256 ==> target@[a] == target_upto(all, k as int, a),
        decreases lines@.len() - k,
    {
        let l = lines[k];
        proof {
            assert forall|a: int| 0 <= a < 256 implies #[trigger] boundary_upto(all, k + 1, a) == (
            boundary_upto(all, k as int, a) || all[k as int].addr == a) && target_upto(
                all,
                k + 1,
                a,
            ) == (target_upto(all, k as int, a) || (!all[k as int].health
                && all[k as int].op.target() == Some(a as u8))) by {
                lemma_boundary_step(all, k as int, a);
            }
        }
        if l.addr < 256 {
            boundary[l.addr] = true;
        }
        if !l.health {
            if let Some(t) = l.op.addr_destination() {
                target[t as usize] = true;
            }
        }
        k = k + 1;
    }
    let mut text: Vec<u8> = Vec::new();
    let mut k: usize = 0;
    while k < lines.len()
        invariant
            k <= lines@.len(),
            all == lines@,
            boundary@.len() == 256,
            target@.len() == 256,
            forall|a: int| 0 <= a < 256 ==> boundary@[a] == is_boundary(all, a),
            forall|a: int| 0 <= a < 256 ==> target@[a] == is_target(all, a),
            text@ == render(all, k as nat),
        decreases lines@.len() - k,
    {
        let l = lines[k];
        let ghost before = text@;
        if l.addr < 256 && target[l.addr] {
            push_label(&mut text, l.addr as u8);
            text.push(COLON);
            text.push(LINE_FEED);
        }
        let ghost mid = text@;
        let mut j: usize = 0;
        while j < 8
            invariant
                j <= 8,
                text@ == mid + Seq::new(j as nat, |i: int| SPACE),
            decreases 8 - j,
        {
            text.push(SPACE);
            j = j + 1;
            proof {
                assert(text@ =~= mid + Seq::new(j as nat, |i: int| SPACE));
            }
        }
        push_op_text(&mut text, l, &boundary, Ghost(all));
        text.push(LINE_FEED);
        proof {
            let head = if is_target(all, l.addr as int) {
                label_text(l.addr as u8) + seq![COLON, LINE_FEED]
            } else {
                Seq::empty()
            };
            if !(l.addr < 256) {
                assert(!is_target(all, l.addr as int));
            }
            assert(mid =~= before + head);
            assert(text@ =~= before + line_text(l, all));
        }
        k = k + 1;
    }
    Ok(text)
}

} // verus!
