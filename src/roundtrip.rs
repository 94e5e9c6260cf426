//! Disassembling a legal program and assembling the text gives the same bytes.

use vstd::prelude::*;

use crate::assembler::{
    assemble_spec, empty_pass1, find_byte, find_label_from, flatten,
    line_from, line_step, op_of, parse_line_spec, pass1_from, resolve_all, resolve_stmt,
    shape_spec, trim_comment_spec, LineItem, Pass1, Shape, StmtModel, CARRIAGE_RETURN, NEWLINE,
    SEMICOLON,
};
use crate::disasm::{
    dec_text, decimal_digit, disasm_spec, hex2, hex_digit, hex_text, indent, is_boundary,
    is_target, label_text, line_text, op_text, render, scan_spec as scan_lines, with_operand, Line,
    LINE_FEED, UPPER_L,
};
use crate::op::Op;
use crate::syntax::{
    digits_value, in_class, is_ident_start, lookup_from, lookup_mnemonic,
    mnemonic_text, next_token_spec, prefixed_class, scan_spec, Class, Mnemonic, Token, TokenKind,
    COLON, COMMA, DIGIT_0, LOWER_X, SPACE,
};

verus! {

broadcast use crate::direction::group_direction;

/// Each mnemonic's spelling reads back as that mnemonic.
pub proof fn lemma_lookup_spelling(m: Mnemonic)
    ensures
        lookup_mnemonic(mnemonic_text(m)) == Some(m),
{
    reveal_with_fuel(lookup_from, 25);
}

/// A scan over a run of bytes of one class stops where the run ends.
proof fn lemma_scan_to(s: Seq<u8>, i: nat, j: nat, c: Class)
    requires
        i <= j <= s.len(),
        forall|k: int| i <= k < j ==> in_class(#[trigger] s[k], c),
        j == s.len() || !in_class(s[j as int], c),
    ensures
        scan_spec(s, i, c) == j,
    decreases j - i,
{
    if i < j {
        lemma_scan_to(s, i + 1, j, c);
    }
}

/// Only spaces from `pos` to `i`.
pub open spec fn spaces(s: Seq<u8>, pos: nat, i: nat) -> bool {
    forall|k: int| pos <= k < i ==> #[trigger] s[k] == SPACE
}

/// Identifier bytes from `i` to `e`, the first one a letter or `_`.
pub open spec fn word_at(s: Seq<u8>, i: nat, e: nat) -> bool {
    &&& i < e <= s.len()
    &&& is_ident_start(s[i as int])
    &&& forall|k: int| i <= k < e ==> in_class(#[trigger] s[k], Class::Word)
}

/// A word followed by a space or the end of the line is a mnemonic or a label reference.
proof fn lemma_word_token(s: Seq<u8>, pos: nat, i: nat, e: nat)
    requires
        s.len() <= usize::MAX,
        pos <= i,
        spaces(s, pos, i),
        word_at(s, i, e),
        e == s.len() || s[e as int] == SPACE,
    ensures
        next_token_spec(s, pos) == Some(
            Token {
                kind: match lookup_mnemonic(s.subrange(i as int, e as int)) {
                    Some(m) => TokenKind::Mnemonic(m),
                    None => TokenKind::LabelReference,
                },
                start: i as usize,
                end: e as usize,
            },
        ),
{
    reveal(next_token_spec);
    lemma_scan_to(s, pos, i, Class::Space);
    lemma_scan_to(s, i, e, Class::Word);
}

/// A word followed by `:` is a label definition.
proof fn lemma_label_def_token(s: Seq<u8>, i: nat, e: nat)
    requires
        s.len() <= usize::MAX,
        word_at(s, i, e),
        e < s.len(),
        s[e as int] == COLON,
        spaces(s, 0, i),
    ensures
        next_token_spec(s, 0) == Some(
            Token { kind: TokenKind::LabelDefinition, start: i as usize, end: (e + 1) as usize },
        ),
{
    reveal(next_token_spec);
    lemma_scan_to(s, 0, i, Class::Space);
    lemma_scan_to(s, i, e, Class::Word);
}

/// Only spaces to the end of the line: no token is left.
proof fn lemma_end_token(s: Seq<u8>, pos: nat)
    requires
        pos <= s.len(),
        spaces(s, pos, s.len()),
    ensures
        next_token_spec(s, pos) is None,
{
    reveal(next_token_spec);
    lemma_scan_to(s, pos, s.len(), Class::Space);
}

/// A comma after spaces.
proof fn lemma_comma_token(s: Seq<u8>, pos: nat, i: nat)
    requires
        s.len() <= usize::MAX,
        pos <= i < s.len(),
        spaces(s, pos, i),
        s[i as int] == COMMA,
    ensures
        next_token_spec(s, pos) == Some(
            Token { kind: TokenKind::Comma, start: i as usize, end: (i + 1) as usize },
        ),
{
    reveal(next_token_spec);
    lemma_scan_to(s, pos, i, Class::Space);
}

proof fn lemma_dec_digits(v: u8)
    ensures
        forall|k: int| 0 <= k < dec_text(v).len() ==> in_class(#[trigger] dec_text(v)[k], Class::Dec),
        digits_value(dec_text(v), 10) == v,
        1 <= dec_text(v).len() <= 3,
        dec_text(v).len() > 1 ==> dec_text(v)[0] != DIGIT_0,
{
    let t = dec_text(v);
    reveal_with_fuel(digits_value, 4);
    if v >= 100 {
        assert(t.drop_last().drop_last().drop_last() =~= Seq::<u8>::empty());
        assert(t.drop_last().drop_last() =~= seq![decimal_digit(v / 100)]);
        assert(t.drop_last() =~= seq![decimal_digit(v / 100), decimal_digit((v / 10) % 10)]);
        assert(((v / 100) * 10 + (v / 10) % 10) * 10 + v % 10 == v) by (nonlinear_arith)
            requires 0 <= v < 256;
    } else if v >= 10 {
        assert(t.drop_last().drop_last() =~= Seq::<u8>::empty());
        assert(t.drop_last() =~= seq![decimal_digit(v / 10)]);
        assert((v / 10) * 10 + v % 10 == v) by (nonlinear_arith)
            requires 0 <= v < 256;
    } else {
        assert(t.drop_last() =~= Seq::<u8>::empty());
    }
}

proof fn lemma_hex_digits(v: u8)
    ensures
        forall|k: int| 0 <= k < hex2(v).len() ==> in_class(#[trigger] hex2(v)[k], Class::Hex),
        forall|k: int| 0 <= k < hex2(v).len() ==> in_class(#[trigger] hex2(v)[k], Class::Word),
        digits_value(hex2(v), 16) == v,
        hex2(v).len() == 2,
{
    let t = hex2(v);
    reveal_with_fuel(digits_value, 3);
    assert(t.drop_last().drop_last() =~= Seq::<u8>::empty());
    assert(t.drop_last() =~= seq![hex_digit(v / 16)]);
    assert((v / 16) * 16 + v % 16 == v) by (nonlinear_arith)
        requires 0 <= v < 256;
}

/// A decimal operand after spaces, followed by a comma or the end of the line.
proof fn lemma_dec_token(s: Seq<u8>, pos: nat, i: nat, v: u8)
    requires
        s.len() <= usize::MAX,
        pos <= i,
        i + dec_text(v).len() <= s.len(),
        spaces(s, pos, i),
        s.subrange(i as int, (i + dec_text(v).len()) as int) == dec_text(v),
        i + dec_text(v).len() == s.len() || s[(i + dec_text(v).len()) as int] == COMMA,
    ensures
        next_token_spec(s, pos) == Some(
            Token {
                kind: TokenKind::Number(v),
                start: i as usize,
                end: (i + dec_text(v).len()) as usize,
            },
        ),
{
    reveal(next_token_spec);
    let t = dec_text(v);
    let e = i + t.len();
    lemma_dec_digits(v);
    assert forall|k: int| i <= k < e implies in_class(#[trigger] s[k], Class::Dec) by {
        assert(s[k] == s.subrange(i as int, e as int)[k - i]);
    }
    assert(s[i as int] == t[0]);
    if t.len() > 1 {
        assert(s[i as int] != DIGIT_0);
    } else if i + 1 < s.len() {
        assert(s[(i + 1) as int] == COMMA);
    }
    assert(prefixed_class(s, i) is None);
    lemma_scan_to(s, pos, i, Class::Space);
    lemma_scan_to(s, i, e, Class::Dec);
}

/// A hexadecimal operand `0xNN` after spaces, at the end of the line.
proof fn lemma_hex_token(s: Seq<u8>, pos: nat, i: nat, v: u8)
    requires
        s.len() <= usize::MAX,
        pos <= i,
        i + 4 == s.len(),
        spaces(s, pos, i),
        s.subrange(i as int, (i + 4) as int) == hex_text(v),
    ensures
        next_token_spec(s, pos) == Some(
            Token { kind: TokenKind::Number(v), start: i as usize, end: (i + 4) as usize },
        ),
{
    reveal(next_token_spec);
    lemma_hex_digits(v);
    assert(s[i as int] == s.subrange(i as int, (i + 4) as int)[0]);
    assert(s[(i + 1) as int] == s.subrange(i as int, (i + 4) as int)[1]);
    assert(s[i as int] == DIGIT_0);
    assert(s[(i + 1) as int] == LOWER_X);
    assert forall|k: int| i + 2 <= k < i + 4 implies in_class(#[trigger] s[k], Class::Hex) by {
        assert(s[k] == s.subrange(i as int, (i + 4) as int)[k - i]);
        assert(hex_text(v)[k - i] == hex2(v)[k - i - 2]);
    }
    assert(prefixed_class(s, i) == Some(Class::Hex));
    assert forall|k: int| 0 <= k < 2 implies #[trigger] s.subrange((i + 2) as int, (i + 4) as int)[k]
        == hex2(v)[k] by {
        assert(s[i + 2 + k] == s.subrange(i as int, (i + 4) as int)[k + 2]);
        assert(hex_text(v)[k + 2] == hex2(v)[k]);
    }
    assert(s.subrange((i + 2) as int, (i + 4) as int) =~= hex2(v));
    lemma_scan_to(s, pos, i, Class::Space);
    lemma_scan_to(s, i + 2, i + 4, Class::Hex);
}

proof fn lemma_mnemonic_word(m: Mnemonic)
    ensures
        mnemonic_text(m).len() >= 4,
        is_ident_start(mnemonic_text(m)[0]),
        forall|k: int|
            0 <= k < mnemonic_text(m).len() ==> in_class(#[trigger] mnemonic_text(m)[k], Class::Word),
{
}

/// A printed line: eight spaces, the mnemonic, and `rest`, which is empty or
/// starts with a space. Its first token is the mnemonic.
proof fn lemma_mnemonic_token(m: Mnemonic, rest: Seq<u8>)
    requires
        rest.len() <= 64,
        rest.len() == 0 || rest[0] == SPACE,
    ensures
        next_token_spec(indent() + mnemonic_text(m) + rest, 0) == Some(
            Token {
                kind: TokenKind::Mnemonic(m),
                start: 8,
                end: (8 + mnemonic_text(m).len()) as usize,
            },
        ),
{
    let t = mnemonic_text(m);
    let s = indent() + t + rest;
    let e: int = 8 + t.len() as int;
    lemma_mnemonic_word(m);
    lemma_lookup_spelling(m);
    assert(t.len() <= 20);
    assert forall|k: int| 0 <= k < 8 implies #[trigger] s[k] == SPACE by {}
    assert forall|k: int| 8 <= k < e implies in_class(#[trigger] s[k], Class::Word) by {
        assert(s[k] == t[k - 8]);
    }
    assert(s[8] == t[0]);
    if rest.len() > 0 {
        assert(s[e as int] == rest[0]);
    }
    assert(s.subrange(8, e) =~= t);
    lemma_word_token(s, 0, 8, e as nat);
}

/// The operand text after the mnemonic and its space.
proof fn lemma_operand_line(m: Mnemonic, t: Seq<u8>)
    requires
        t.len() <= 16,
    ensures
        ({
            let s = indent() + with_operand(m, t);
            let e: int = 8 + mnemonic_text(m).len() as int;
            &&& s == indent() + mnemonic_text(m) + (seq![SPACE] + t)
            &&& s.len() == e + 1 + t.len()
            &&& s.subrange(e + 1, s.len() as int) == t
            &&& spaces(s, e as nat, (e + 1) as nat)
            &&& next_token_spec(s, 0) == Some(
                Token { kind: TokenKind::Mnemonic(m), start: 8, end: e as usize },
            )
        }),
{
    let s = indent() + with_operand(m, t);
    let e: int = 8 + mnemonic_text(m).len() as int;
    lemma_mnemonic_word(m);
    assert(mnemonic_text(m).len() <= 20);
    assert(s =~= indent() + mnemonic_text(m) + (seq![SPACE] + t));
    lemma_mnemonic_token(m, seq![SPACE] + t);
    assert(s.subrange(e + 1, s.len() as int) =~= t);
    assert(s[e] == SPACE);
}

/// A bare mnemonic reads back as its instruction.
proof fn lemma_bare_line(m: Mnemonic)
    requires
        shape_spec(m) == Shape::Bare,
    ensures
        parse_line_spec(indent() + mnemonic_text(m)) == Some(LineItem::Stmt(op_of(m, 0, 0), None)),
{
    let s = indent() + mnemonic_text(m);
    lemma_mnemonic_word(m);
    assert(mnemonic_text(m).len() <= 20);
    assert(s =~= indent() + mnemonic_text(m) + Seq::<u8>::empty());
    lemma_mnemonic_token(m, Seq::empty());
    lemma_end_token(s, s.len());
}

/// A mnemonic with one decimal operand.
proof fn lemma_dec_line(m: Mnemonic, v: u8)
    requires
        shape_spec(m) matches Shape::Number { max, not_one } && v <= max && !(not_one && v == 1),
    ensures
        parse_line_spec(indent() + with_operand(m, dec_text(v))) == Some(
            LineItem::Stmt(op_of(m, v, 0), None),
        ),
{
    let t = dec_text(v);
    let s = indent() + with_operand(m, t);
    let e: int = 8 + mnemonic_text(m).len() as int;
    lemma_dec_digits(v);
    lemma_operand_line(m, t);
    assert(s.subrange(e + 1, e + 1 + t.len()) == t);
    lemma_dec_token(s, e as nat, (e + 1) as nat, v);
    lemma_end_token(s, s.len());
}

/// A mnemonic with one hexadecimal operand.
proof fn lemma_hex_line(m: Mnemonic, v: u8)
    requires
        shape_spec(m) matches Shape::Number { max, not_one } && v <= max && !(not_one && v == 1),
    ensures
        parse_line_spec(indent() + with_operand(m, hex_text(v))) == Some(
            LineItem::Stmt(op_of(m, v, 0), None),
        ),
{
    let t = hex_text(v);
    let s = indent() + with_operand(m, t);
    let e: int = 8 + mnemonic_text(m).len() as int;
    lemma_operand_line(m, t);
    lemma_hex_token(s, e as nat, (e + 1) as nat, v);
    lemma_end_token(s, s.len());
}

/// A branch mnemonic with its label.
proof fn lemma_branch_line(m: Mnemonic, a: u8)
    requires
        shape_spec(m) == Shape::Branch,
    ensures
        parse_line_spec(indent() + with_operand(m, label_text(a))) == Some(
            LineItem::Stmt(op_of(m, 0, 0), Some(label_text(a))),
        ),
{
    let t = label_text(a);
    let s = indent() + with_operand(m, t);
    let e: int = 8 + mnemonic_text(m).len() as int;
    lemma_operand_line(m, t);
    lemma_hex_digits(a);
    assert(t.len() == 3);
    assert forall|k: int| e + 1 <= k < s.len() implies in_class(#[trigger] s[k], Class::Word) by {
        assert(s[k] == t[k - e - 1]);
        if k > e + 1 {
            assert(t[k - e - 1] == hex2(a)[k - e - 2]);
        }
    }
    assert(s[e + 1] == UPPER_L);
    assert(lookup_mnemonic(t) is None) by {
        reveal_with_fuel(lookup_from, 25);
    }
    lemma_word_token(s, e as nat, (e + 1) as nat, s.len());
    lemma_end_token(s, s.len());
}

/// A mnemonic with two decimal operands.
#[verifier::rlimit(40)]
proof fn lemma_pair_line(m: Mnemonic, a: u8, b: u8)
    requires
        m == Mnemonic::SetInversion || m == Mnemonic::SetPosition,
        shape_spec(m) matches Shape::Pair { max } && a <= max && b <= max,
    ensures
        parse_line_spec(
            indent() + with_operand(m, dec_text(a) + seq![COMMA, SPACE] + dec_text(b)),
        ) == Some(LineItem::Stmt(op_of(m, a, b), None)),
{
    let ta = dec_text(a);
    let tb = dec_text(b);
    let t = ta + seq![COMMA, SPACE] + tb;
    let s = indent() + with_operand(m, t);
    let e: int = 8 + mnemonic_text(m).len() as int;
    lemma_dec_digits(a);
    lemma_dec_digits(b);
    lemma_operand_line(m, t);
    let i1: int = e + 1;
    let c: int = i1 + ta.len() as int;
    let i2: int = c + 2;
    assert(s.subrange(i1, c) =~= ta);
    assert(s[c] == COMMA);
    assert(s[c + 1] == SPACE);
    assert(s.subrange(i2, i2 + tb.len()) =~= tb);
    assert(i2 + tb.len() == s.len());
    lemma_dec_token(s, e as nat, i1 as nat, a);
    lemma_comma_token(s, c as nat, c as nat);
    lemma_dec_token(s, (c + 1) as nat, i2 as nat, b);
    lemma_end_token(s, s.len());
}

/// What the assembler reads back from the printed form of an instruction:
/// the instruction itself, where a branch waits for the label of its target.
pub open spec fn read_back(l: Line, lines: Seq<Line>) -> (Op, Option<Seq<u8>>) {
    match l.op {
        Op::Jump(a) => (Op::Jump(0), Some(label_text(a))),
        Op::BccX(a) => (Op::BccX(0), Some(label_text(a))),
        Op::BcsX(a) => (Op::BcsX(0), Some(label_text(a))),
        Op::BccY(a) => (Op::BccY(0), Some(label_text(a))),
        Op::BcsY(a) => (Op::BcsY(0), Some(label_text(a))),
        Op::SetJumpOnDamage(a) => if !l.health && is_boundary(lines, a as int) {
            if a == 0 {
                (Op::SetJumpOnDamage(0), None)
            } else {
                (Op::SetJumpOnDamage(0xFF), Some(label_text(a)))
            }
        } else {
            (Op::SetJumpOnDamage(a), None)
        },
        _ => (l.op, None),
    }
}

/// The printed form of an instruction parses back to [`read_back`].
proof fn lemma_op_line(l: Line, lines: Seq<Line>)
    requires
        l.op.wf(),
        l.op != Op::SetSleepTimer(0),
    ensures
        parse_line_spec(indent() + op_text(l, lines)) == Some(
            LineItem::Stmt(read_back(l, lines).0, read_back(l, lines).1),
        ),
{
    match l.op {
        Op::Move(d) => lemma_hex_line(Mnemonic::Move, d.idx()),
        Op::Jump(a) => lemma_branch_line(Mnemonic::Jump, a),
        Op::SetSleepTimer(n) => lemma_dec_line(Mnemonic::SetSleepTimer, n),
        Op::LoopBegin(n) => lemma_dec_line(Mnemonic::LoopBegin, n),
        Op::LoopEnd => lemma_bare_line(Mnemonic::LoopEnd),
        Op::ShootDirection(d) => lemma_hex_line(Mnemonic::ShootDirection, d.idx()),
        Op::SetSprite(n) => lemma_dec_line(Mnemonic::SetSprite, n),
        Op::SetHomingTimer(n) => lemma_dec_line(Mnemonic::SetHomingTimer, n),
        Op::SetInversion(x, y) => lemma_pair_line(
            Mnemonic::SetInversion,
            if x { 1 } else { 0 },
            if y { 1 } else { 0 },
        ),
        Op::SetPosition(x, y) => lemma_pair_line(Mnemonic::SetPosition, x, y),
        Op::SetJumpOnDamage(a) => {
            if !l.health && is_boundary(lines, a as int) {
                if a == 0 {
                    lemma_bare_line(Mnemonic::UnsetJumpOnDamage);
                } else {
                    lemma_branch_line(Mnemonic::SetJumpOnDamage, a);
                }
            } else {
                lemma_dec_line(Mnemonic::SetHealth, a);
            }
        },
        Op::IncrementSprite => lemma_bare_line(Mnemonic::IncrementSprite),
        Op::DecrementSprite => lemma_bare_line(Mnemonic::DecrementSprite),
        Op::SetPart(p) => lemma_dec_line(Mnemonic::SetPart, p),
        Op::RandomizeX(m) => lemma_hex_line(Mnemonic::RandomizeX, m),
        Op::RandomizeY(m) => lemma_hex_line(Mnemonic::RandomizeY, m),
        Op::BccX(a) => lemma_branch_line(Mnemonic::BccX, a),
        Op::BcsX(a) => lemma_branch_line(Mnemonic::BcsX, a),
        Op::BccY(a) => lemma_branch_line(Mnemonic::BccY, a),
        Op::BcsY(a) => lemma_branch_line(Mnemonic::BcsY, a),
        Op::ShootAim(n) => lemma_dec_line(Mnemonic::ShootAim, n),
        Op::ChangeMusic(n) => lemma_dec_line(Mnemonic::ChangeMusic, n),
    }
}

/// The label line `LNN:` defines label `LNN`.
proof fn lemma_label_line(a: u8)
    ensures
        parse_line_spec(label_text(a) + seq![COLON]) == Some(LineItem::Label(label_text(a))),
{
    let t = label_text(a);
    let s = t + seq![COLON];
    lemma_hex_digits(a);
    assert forall|k: int| 0 <= k < 3 implies in_class(#[trigger] s[k], Class::Word) by {
        if k > 0 {
            assert(s[k] == hex2(a)[k - 1]);
        }
    }
    assert(s[3] == COLON);
    lemma_label_def_token(s, 0, 3);
    lemma_end_token(s, 4);
    assert(s.subrange(0, 3) =~= t);
}

/// Bytes that a printed line is made of: identifier bytes, spaces, commas and colons.
pub open spec fn plain(s: Seq<u8>) -> bool {
    forall|k: int|
        0 <= k < s.len() ==> (in_class(#[trigger] s[k], Class::Word) || s[k] == SPACE || s[k]
            == COMMA || s[k] == COLON)
}

proof fn lemma_plain_concat(a: Seq<u8>, b: Seq<u8>)
    requires
        plain(a),
        plain(b),
    ensures
        plain(a + b),
{
    assert forall|k: int| 0 <= k < (a + b).len() implies (in_class(#[trigger] (a + b)[k], Class::Word)
        || (a + b)[k] == SPACE || (a + b)[k] == COMMA || (a + b)[k] == COLON) by {
        if k < a.len() {
            assert((a + b)[k] == a[k]);
        } else {
            assert((a + b)[k] == b[k - a.len()]);
        }
    }
}

proof fn lemma_plain_pieces(m: Mnemonic, v: u8)
    ensures
        plain(mnemonic_text(m)),
        plain(dec_text(v)),
        plain(hex_text(v)),
        plain(label_text(v)),
        plain(seq![SPACE]),
        plain(seq![COMMA, SPACE]),
        plain(seq![COLON]),
        plain(indent()),
{
    lemma_mnemonic_word(m);
    lemma_dec_digits(v);
    lemma_hex_digits(v);
    assert forall|k: int| 0 <= k < hex_text(v).len() implies in_class(#[trigger] hex_text(v)[k], Class::Word) by {
        if k >= 2 {
            assert(hex_text(v)[k] == hex2(v)[k - 2]);
        }
    }
    assert forall|k: int| 0 <= k < label_text(v).len() implies in_class(#[trigger] label_text(v)[k], Class::Word) by {
        if k >= 1 {
            assert(label_text(v)[k] == hex2(v)[k - 1]);
        }
    }
}

proof fn lemma_with_operand_plain(m: Mnemonic, t: Seq<u8>)
    requires
        plain(t),
    ensures
        plain(with_operand(m, t)),
{
    lemma_plain_pieces(m, 0);
    lemma_plain_concat(mnemonic_text(m), seq![SPACE]);
    lemma_plain_concat(mnemonic_text(m) + seq![SPACE], t);
}

/// A printed instruction is made of plain bytes.
proof fn lemma_op_text_plain(l: Line, lines: Seq<Line>)
    ensures
        plain(indent() + op_text(l, lines)),
{
    let t = op_text(l, lines);
    match l.op {
        Op::Move(d) => {
            lemma_plain_pieces(Mnemonic::Move, d.idx());
            lemma_with_operand_plain(Mnemonic::Move, hex_text(d.idx()));
        },
        Op::ShootDirection(d) => {
            lemma_plain_pieces(Mnemonic::Move, d.idx());
            lemma_with_operand_plain(Mnemonic::ShootDirection, hex_text(d.idx()));
        },
        Op::RandomizeX(v) | Op::RandomizeY(v) => {
            lemma_plain_pieces(Mnemonic::Move, v);
            lemma_with_operand_plain(Mnemonic::RandomizeX, hex_text(v));
            lemma_with_operand_plain(Mnemonic::RandomizeY, hex_text(v));
        },
        Op::Jump(v) | Op::BccX(v) | Op::BcsX(v) | Op::BccY(v) | Op::BcsY(v) => {
            lemma_plain_pieces(Mnemonic::Move, v);
            lemma_with_operand_plain(Mnemonic::Jump, label_text(v));
            lemma_with_operand_plain(Mnemonic::BccX, label_text(v));
            lemma_with_operand_plain(Mnemonic::BcsX, label_text(v));
            lemma_with_operand_plain(Mnemonic::BccY, label_text(v));
            lemma_with_operand_plain(Mnemonic::BcsY, label_text(v));
        },
        Op::SetJumpOnDamage(v) => {
            lemma_plain_pieces(Mnemonic::UnsetJumpOnDamage, v);
            lemma_with_operand_plain(Mnemonic::SetJumpOnDamage, label_text(v));
            lemma_with_operand_plain(Mnemonic::SetHealth, dec_text(v));
        },
        Op::SetSleepTimer(v) | Op::LoopBegin(v) | Op::SetSprite(v) | Op::SetHomingTimer(v)
        | Op::SetPart(v) | Op::ShootAim(v) | Op::ChangeMusic(v) => {
            lemma_plain_pieces(Mnemonic::Move, v);
            lemma_with_operand_plain(Mnemonic::SetSleepTimer, dec_text(v));
            lemma_with_operand_plain(Mnemonic::LoopBegin, dec_text(v));
            lemma_with_operand_plain(Mnemonic::SetSprite, dec_text(v));
            lemma_with_operand_plain(Mnemonic::SetHomingTimer, dec_text(v));
            lemma_with_operand_plain(Mnemonic::SetPart, dec_text(v));
            lemma_with_operand_plain(Mnemonic::ShootAim, dec_text(v));
            lemma_with_operand_plain(Mnemonic::ChangeMusic, dec_text(v));
        },
        Op::SetInversion(x, y) => {
            let a: u8 = if x { 1 } else { 0 };
            let b: u8 = if y { 1 } else { 0 };
            lemma_plain_pieces(Mnemonic::Move, a);
            lemma_plain_pieces(Mnemonic::Move, b);
            lemma_plain_concat(dec_text(a), seq![COMMA, SPACE]);
            lemma_plain_concat(dec_text(a) + seq![COMMA, SPACE], dec_text(b));
            lemma_with_operand_plain(Mnemonic::SetInversion, dec_text(a) + seq![COMMA, SPACE] + dec_text(b));
        },
        Op::SetPosition(a, b) => {
            lemma_plain_pieces(Mnemonic::Move, a);
            lemma_plain_pieces(Mnemonic::Move, b);
            lemma_plain_concat(dec_text(a), seq![COMMA, SPACE]);
            lemma_plain_concat(dec_text(a) + seq![COMMA, SPACE], dec_text(b));
            lemma_with_operand_plain(Mnemonic::SetPosition, dec_text(a) + seq![COMMA, SPACE] + dec_text(b));
        },
        _ => {
            lemma_plain_pieces(Mnemonic::LoopEnd, 0);
            lemma_plain_pieces(Mnemonic::IncrementSprite, 0);
            lemma_plain_pieces(Mnemonic::DecrementSprite, 0);
        },
    }
    lemma_plain_pieces(Mnemonic::Move, 0);
    lemma_plain_concat(indent(), t);
}

/// The lines that the disassembler prints for one instruction, without their line breaks.
pub open spec fn instr_lines(l: Line, lines: Seq<Line>) -> Seq<Seq<u8>> {
    (if is_target(lines, l.addr as int) {
        seq![label_text(l.addr as u8) + seq![COLON]]
    } else {
        Seq::empty()
    }) + seq![indent() + op_text(l, lines)]
}

/// The lines printed for the first `k` instructions.
pub open spec fn printed(lines: Seq<Line>, k: nat) -> Seq<Seq<u8>>
    decreases k,
{
    if k == 0 || k > lines.len() {
        Seq::empty()
    } else {
        printed(lines, (k - 1) as nat) + instr_lines(lines[k - 1], lines)
    }
}

/// Lines, each followed by a line break.
pub open spec fn joined(ls: Seq<Seq<u8>>) -> Seq<u8>
    decreases ls.len(),
{
    if ls.len() == 0 {
        Seq::empty()
    } else {
        joined(ls.drop_last()) + ls.last() + seq![LINE_FEED]
    }
}

/// The first pass over lines, one after another.
pub open spec fn fold_lines(ls: Seq<Seq<u8>>, lineno: nat, st: Pass1) -> Result<
    Pass1,
    crate::assembler::AsmFault,
>
    decreases ls.len(),
{
    if ls.len() == 0 {
        Ok(st)
    } else {
        match line_step(st, lineno, ls[0]) {
            Err(f) => Err(f),
            Ok(st2) => fold_lines(ls.skip(1), lineno + 1, st2),
        }
    }
}

proof fn lemma_joined_append(a: Seq<Seq<u8>>, b: Seq<Seq<u8>>)
    ensures
        joined(a + b) == joined(a) + joined(b),
    decreases b.len(),
{
    if b.len() == 0 {
        assert(a + b =~= a);
        assert(joined(a) + joined(b) =~= joined(a));
    } else {
        assert((a + b).drop_last() =~= a + b.drop_last());
        lemma_joined_append(a, b.drop_last());
        assert(joined(a + b) =~= joined(a) + joined(b));
    }
}

proof fn lemma_render_joined(lines: Seq<Line>, k: nat)
    requires
        k <= lines.len(),
    ensures
        render(lines, k) == joined(printed(lines, k)),
    decreases k,
{
    if k > 0 {
        lemma_render_joined(lines, (k - 1) as nat);
        let l = lines[k - 1];
        let il = instr_lines(l, lines);
        lemma_joined_append(printed(lines, (k - 1) as nat), il);
        reveal_with_fuel(joined, 3);
        if is_target(lines, l.addr as int) {
            assert(il.drop_last() =~= seq![label_text(l.addr as u8) + seq![COLON]]);
            assert(il.drop_last().drop_last() =~= Seq::<Seq<u8>>::empty());
        } else {
            assert(il.drop_last() =~= Seq::<Seq<u8>>::empty());
        }
        assert(joined(il) =~= line_text(l, lines));
    }
}

proof fn lemma_fold_append(a: Seq<Seq<u8>>, b: Seq<Seq<u8>>, lineno: nat, st: Pass1)
    ensures
        fold_lines(a + b, lineno, st) == match fold_lines(a, lineno, st) {
            Ok(st2) => fold_lines(b, lineno + a.len(), st2),
            Err(f) => Err(f),
        },
    decreases a.len(),
{
    if a.len() == 0 {
        assert(a + b =~= b);
    } else {
        assert((a + b)[0] == a[0]);
        assert((a + b).skip(1) =~= a.skip(1) + b);
        if let Ok(st2) = line_step(st, lineno, a[0]) {
            lemma_fold_append(a.skip(1), b, lineno + 1, st2);
        }
    }
}

/// A search for a byte absent from a run stops where the byte is.
proof fn lemma_find_byte_to(s: Seq<u8>, i: nat, j: nat, b: u8)
    requires
        i <= j <= s.len(),
        forall|k: int| i <= k < j ==> #[trigger] s[k] != b,
        j == s.len() || s[j as int] == b,
    ensures
        find_byte(s, i, b) == j,
    decreases j - i,
{
    if i < j {
        lemma_find_byte_to(s, i + 1, j, b);
    }
}

/// A plain line has no comment to cut off.
proof fn lemma_plain_trim(line: Seq<u8>)
    requires
        plain(line),
    ensures
        trim_comment_spec(line) == line,
{
    lemma_find_byte_to(line, 0, line.len(), SEMICOLON);
    assert(line.take(line.len() as int) =~= line);
}

/// The first pass over text made of plain lines reads those lines in order.
proof fn lemma_pass1_joined(pre: Seq<u8>, ls: Seq<Seq<u8>>, lineno: nat, st: Pass1)
    requires
        forall|i: int| 0 <= i < ls.len() ==> plain(#[trigger] ls[i]),
    ensures
        pass1_from(pre + joined(ls), pre.len(), lineno, st) == fold_lines(ls, lineno, st),
    decreases ls.len(),
{
    let src = pre + joined(ls);
    if ls.len() == 0 {
        assert(src =~= pre);
    } else {
        let first = ls[0];
        let rest = ls.skip(1);
        assert(ls =~= seq![first] + rest);
        lemma_joined_append(seq![first], rest);
        reveal_with_fuel(joined, 2);
        assert(seq![first].drop_last() =~= Seq::<Seq<u8>>::empty());
        assert(joined(seq![first]) =~= first + seq![LINE_FEED]);
        let pre2 = pre + first + seq![LINE_FEED];
        assert(src =~= pre2 + joined(rest));
        let e = pre.len() + first.len();
        assert(plain(first));
        assert forall|k: int| pre.len() <= k < e implies #[trigger] src[k] != NEWLINE by {
            assert(src[k] == first[k - pre.len()]);
        }
        assert(src[e as int] == NEWLINE);
        lemma_find_byte_to(src, pre.len(), e, NEWLINE);
        assert(src.subrange(pre.len() as int, e as int) =~= first);
        if first.len() > 0 {
            assert(first.last() != CARRIAGE_RETURN);
        }
        assert(line_from(src, pre.len()) == first);
        assert forall|i: int| 0 <= i < rest.len() implies plain(#[trigger] rest[i]) by {
            assert(rest[i] == ls[i + 1]);
        }
        if let Ok(st2) = line_step(st, lineno, first) {
            lemma_pass1_joined(pre2, rest, lineno + 1, st2);
            assert(pre2.len() == e + 1);
        }
    }
}

/// The instructions of scanned lines.
pub open spec fn ops_of(lines: Seq<Line>) -> Seq<Op> {
    lines.map_values(|l: Line| l.op)
}

/// What the scan guarantees of one line `l`, followed by an instruction at `next`.
pub open spec fn line_ok(p: Seq<u8>, addr: nat, l: Line, next: int) -> bool {
    &&& l.op.wf()
    &&& l.op != Op::SetSleepTimer(0)
    &&& addr <= l.addr < p.len()
    &&& l.addr + l.op.spec_len() == next
    &&& l.health == (l.op.target() matches Some(t) && t >= p.len())
    &&& l.health ==> l.op is SetJumpOnDamage
}

/// Where the instruction after line `k` starts.
pub open spec fn next_addr(p: Seq<u8>, rest: Seq<Line>, k: int) -> int {
    if k + 1 < rest.len() {
        rest[k + 1].addr as int
    } else {
        p.len() as int
    }
}

/// What a scan from `addr` that gave `rest` guarantees.
pub open spec fn scanned_from(p: Seq<u8>, addr: nat, rest: Seq<Line>) -> bool {
    &&& addr <= p.len()
    &&& p.skip(addr as int) == flatten(ops_of(rest))
    &&& rest.len() > 0 ==> rest[0].addr == addr
    &&& rest.len() == 0 ==> addr == p.len()
    &&& forall|k: int|
        0 <= k < rest.len() ==> #[trigger] line_ok(p, addr, rest[k], next_addr(p, rest, k))
}

proof fn lemma_flatten_append(a: Seq<Op>, b: Seq<Op>)
    ensures
        flatten(a + b) == flatten(a) + flatten(b),
    decreases b.len(),
{
    if b.len() == 0 {
        assert(a + b =~= a);
        assert(flatten(a) + flatten(b) =~= flatten(a));
    } else {
        assert((a + b).drop_last() =~= a + b.drop_last());
        lemma_flatten_append(a, b.drop_last());
        assert(flatten(a + b) =~= flatten(a) + flatten(b));
    }
}

proof fn lemma_scan(p: Seq<u8>, addr: nat)
    requires
        p.len() <= 256,
        addr <= p.len(),
    ensures
        scan_lines(p, addr) matches Ok(rest) ==> scanned_from(p, addr, rest),
    decreases p.len() - addr,
{
    if addr < p.len() {
        let b = p.skip(addr as int);
        if let Ok(op) = crate::op::decode_spec(b) {
            crate::op::lemma_decoded_prefix(b);
            crate::op::lemma_encoded_length(op);
            let addr2 = addr + op.spec_len();
            lemma_scan(p, addr2);
            if let Ok(rest) = scan_lines(p, addr) {
                let r2 = scan_lines(p, addr2)->Ok_0;
                let out = match op.target() {
                    Some(t) => t >= p.len(),
                    None => false,
                };
                let line = Line { addr: addr as usize, op, health: out };
                assert(rest == seq![line] + r2);
                assert(ops_of(rest) =~= seq![op] + ops_of(r2));
                lemma_flatten_append(seq![op], ops_of(r2));
                reveal_with_fuel(flatten, 2);
                assert(seq![op].drop_last() =~= Seq::<Op>::empty());
                assert(flatten(seq![op]) =~= op.bytes());
                assert(p.skip(addr as int) =~= op.bytes() + p.skip(addr2 as int));
                assert forall|k: int| 0 <= k < rest.len() implies #[trigger] line_ok(
                    p,
                    addr,
                    rest[k],
                    next_addr(p, rest, k),
                ) by {
                    if k > 0 {
                        assert(rest[k] == r2[k - 1]);
                        assert(line_ok(p, addr2, r2[k - 1], next_addr(p, r2, k - 1)));
                        if k + 1 < rest.len() {
                            assert(rest[k + 1] == r2[k]);
                        }
                    } else if rest.len() > 1 {
                        assert(rest[1] == r2[0]);
                    }
                }
            }
        }
    } else {
        assert(p.skip(addr as int) =~= Seq::<u8>::empty());
    }
}

/// Addresses of scanned lines grow.
proof fn lemma_addr_order(p: Seq<u8>, lines: Seq<Line>, j: int, k: int)
    requires
        scanned_from(p, 0, lines),
        0 <= j < k < lines.len(),
    ensures
        lines[j].addr < lines[k].addr,
    decreases k - j,
{
    let l = lines[j];
    assert(line_ok(p, 0, l, next_addr(p, lines, j)));
    crate::op::lemma_encoded_length(l.op);
    if j + 1 < k {
        lemma_addr_order(p, lines, j + 1, k);
    }
}

proof fn lemma_label_text_injective(a: u8, b: u8)
    requires
        label_text(a) == label_text(b),
    ensures
        a == b,
{
    assert(label_text(a)[1] == label_text(b)[1]);
    assert(label_text(a)[2] == label_text(b)[2]);
    assert(label_text(a)[1] == hex2(a)[0] && label_text(b)[1] == hex2(b)[0]);
    assert(label_text(a)[2] == hex2(a)[1] && label_text(b)[2] == hex2(b)[1]);
    assert(hex_digit(a / 16) == hex_digit(b / 16));
    assert(hex_digit(a % 16) == hex_digit(b % 16));
    assert(a / 16 == b / 16);
    assert(a % 16 == b % 16);
    assert(a == 16 * (a / 16) + a % 16) by (nonlinear_arith)
        requires 0 <= a < 256;
    assert(b == 16 * (b / 16) + b % 16) by (nonlinear_arith)
        requires 0 <= b < 256;
}

/// The labels that the printed text defines for the first `k` instructions.
pub open spec fn label_list(lines: Seq<Line>, k: nat) -> Seq<(Seq<u8>, u8)>
    decreases k,
{
    if k == 0 || k > lines.len() {
        Seq::empty()
    } else {
        label_list(lines, (k - 1) as nat) + (if is_target(lines, lines[k - 1].addr as int) {
            seq![(label_text(lines[k - 1].addr as u8), lines[k - 1].addr as u8)]
        } else {
            Seq::empty()
        })
    }
}

/// Each entry of the label list names its address, which lies before that
/// of instruction `k`.
proof fn lemma_label_entries(p: Seq<u8>, lines: Seq<Line>, k: nat)
    requires
        scanned_from(p, 0, lines),
        k <= lines.len(),
    ensures
        forall|i: int|
            0 <= i < label_list(lines, k).len() ==> (#[trigger] label_list(lines, k)[i]).0
                == label_text(label_list(lines, k)[i].1),
        k < lines.len() ==> forall|i: int|
            0 <= i < label_list(lines, k).len() ==> (#[trigger] label_list(lines, k)[i]).1
                < lines[k as int].addr,
    decreases k,
{
    if k > 0 {
        lemma_label_entries(p, lines, (k - 1) as nat);
        let prev = label_list(lines, (k - 1) as nat);
        let cur = label_list(lines, k);
        let l = lines[k - 1];
        assert(line_ok(p, 0, l, next_addr(p, lines, k - 1)));
        if k < lines.len() {
            lemma_addr_order(p, lines, k - 1, k as int);
        }
        assert forall|i: int| 0 <= i < cur.len() implies (#[trigger] cur[i]).0 == label_text(
            cur[i].1,
        ) && (k < lines.len() ==> cur[i].1 < lines[k as int].addr) by {
            if i < prev.len() {
                assert(cur[i] == prev[i]);
            }
        }
    }
}

/// The label list holds an entry for each instruction that a branch goes to.
proof fn lemma_label_present(lines: Seq<Line>, k: nat, j: int)
    requires
        k <= lines.len(),
        0 <= j < k,
        is_target(lines, lines[j].addr as int),
    ensures
        exists|i: int|
            0 <= i < label_list(lines, k).len() && #[trigger] label_list(lines, k)[i].1
                == lines[j].addr as u8,
    decreases k,
{
    let prev = label_list(lines, (k - 1) as nat);
    let cur = label_list(lines, k);
    if j < k - 1 {
        lemma_label_present(lines, (k - 1) as nat, j);
        let i0 = choose|i: int| 0 <= i < prev.len() && #[trigger] prev[i].1 == lines[j].addr as u8;
        assert(cur[i0] == prev[i0]);
    } else {
        assert(cur[prev.len() as int].1 == lines[j].addr as u8);
    }
}

/// Looking up a label that the list defines for address `t` finds `t`.
proof fn lemma_find_label_at(labels: Seq<(Seq<u8>, u8)>, t: u8, i: nat, i0: int)
    requires
        i <= i0 < labels.len(),
        labels[i0].1 == t,
        forall|j: int| 0 <= j < labels.len() ==> (#[trigger] labels[j]).0 == label_text(labels[j].1),
    ensures
        find_label_from(labels, label_text(t), i) == Some(t),
    decreases i0 - i,
{
    if labels[i as int].0 == label_text(t) {
        lemma_label_text_injective(labels[i as int].1, t);
    } else {
        lemma_find_label_at(labels, t, i + 1, i0);
    }
}

/// A label that no entry names is not found.
proof fn lemma_find_label_none(labels: Seq<(Seq<u8>, u8)>, name: Seq<u8>, i: nat)
    requires
        forall|j: int| 0 <= j < labels.len() ==> (#[trigger] labels[j]).0 != name,
    ensures
        find_label_from(labels, name, i) is None,
    decreases labels.len() - i,
{
    if i < labels.len() {
        lemma_find_label_none(labels, name, i + 1);
    }
}

/// The first pass after the printed form of the first `k` instructions: at
/// the address of instruction `k`, with the labels printed so far, and one
/// statement per instruction that reads back as [`read_back`] says.
pub open spec fn pass_state_ok(st: Pass1, p: Seq<u8>, lines: Seq<Line>, k: nat) -> bool {
    &&& st.addr == (if k < lines.len() {
        lines[k as int].addr as nat
    } else {
        p.len()
    })
    &&& st.labels == label_list(lines, k)
    &&& st.stmts.len() == k
    &&& forall|j: int|
        0 <= j < k ==> (#[trigger] st.stmts[j]).op == read_back(lines[j], lines).0
            && st.stmts[j].label == read_back(lines[j], lines).1
}

/// Reading the lines printed for instruction `k` moves the first pass on by one instruction.
proof fn lemma_instr_step(p: Seq<u8>, lines: Seq<Line>, k: nat, st: Pass1, lineno: nat)
    requires
        p.len() <= 256,
        scanned_from(p, 0, lines),
        k < lines.len(),
        pass_state_ok(st, p, lines, k),
    ensures
        fold_lines(instr_lines(lines[k as int], lines), lineno, st) is Ok,
        pass_state_ok(fold_lines(instr_lines(lines[k as int], lines), lineno, st)->Ok_0, p, lines, k + 1),
{
    let l = lines[k as int];
    let a = l.addr;
    assert(line_ok(p, 0, l, next_addr(p, lines, k as int)));
    let opline = indent() + op_text(l, lines);
    let rb = read_back(l, lines);
    lemma_op_line(l, lines);
    lemma_op_text_plain(l, lines);
    lemma_plain_trim(opline);
    assert(rb.0.spec_len() == l.op.spec_len());
    if k + 1 < lines.len() {
        assert(line_ok(p, 0, lines[k + 1int], next_addr(p, lines, k + 1int)));
    }
    assert(st.addr + rb.0.spec_len() <= p.len());
    let il = instr_lines(l, lines);
    reveal_with_fuel(fold_lines, 3);
    if is_target(lines, a as int) {
        let lab = label_text(a as u8) + seq![COLON];
        lemma_label_line(a as u8);
        lemma_plain_pieces(Mnemonic::Move, a as u8);
        lemma_plain_concat(label_text(a as u8), seq![COLON]);
        lemma_plain_trim(lab);
        lemma_label_entries(p, lines, k);
        let labels = label_list(lines, k);
        assert forall|j: int| 0 <= j < labels.len() implies (#[trigger] labels[j]).0 != label_text(
            a as u8,
        ) by {
            if labels[j].0 == label_text(a as u8) {
                lemma_label_text_injective(labels[j].1, a as u8);
            }
        }
        lemma_find_label_none(labels, label_text(a as u8), 0);
        let st1 = Pass1 { labels: st.labels.push((label_text(a as u8), a as u8)), ..st };
        assert(line_step(st, lineno, lab) == Ok::<Pass1, crate::assembler::AsmFault>(st1));
        assert(il[0] == lab);
        assert(il.skip(1) =~= seq![opline]);
        assert(seq![opline].skip(1) =~= Seq::<Seq<u8>>::empty());
        let st2 = Pass1 {
            addr: st1.addr + rb.0.spec_len(),
            stmts: st1.stmts.push(StmtModel { lineno: lineno + 1, addr: st1.addr, op: rb.0, label: rb.1 }),
            ..st1
        };
        assert(line_step(st1, lineno + 1, opline) == Ok::<Pass1, crate::assembler::AsmFault>(st2));
        assert(fold_lines(il, lineno, st) == Ok::<Pass1, crate::assembler::AsmFault>(st2));
        assert(label_list(lines, k + 1) =~= st2.labels);
        assert forall|j: int| 0 <= j < k + 1 implies (#[trigger] st2.stmts[j]).op == read_back(
            lines[j],
            lines,
        ).0 && st2.stmts[j].label == read_back(lines[j], lines).1 by {
            if j < k {
                assert(st2.stmts[j] == st.stmts[j]);
            }
        }
    } else {
        assert(il =~= seq![opline]);
        assert(il.skip(1) =~= Seq::<Seq<u8>>::empty());
        let st2 = Pass1 {
            addr: st.addr + rb.0.spec_len(),
            stmts: st.stmts.push(StmtModel { lineno, addr: st.addr, op: rb.0, label: rb.1 }),
            ..st
        };
        assert(line_step(st, lineno, opline) == Ok::<Pass1, crate::assembler::AsmFault>(st2));
        assert(fold_lines(il, lineno, st) == Ok::<Pass1, crate::assembler::AsmFault>(st2));
        assert(label_list(lines, k + 1) =~= st2.labels);
        assert forall|j: int| 0 <= j < k + 1 implies (#[trigger] st2.stmts[j]).op == read_back(
            lines[j],
            lines,
        ).0 && st2.stmts[j].label == read_back(lines[j], lines).1 by {
            if j < k {
                assert(st2.stmts[j] == st.stmts[j]);
            }
        }
    }
}

proof fn lemma_fold_printed(p: Seq<u8>, lines: Seq<Line>, k: nat)
    requires
        p.len() <= 256,
        scanned_from(p, 0, lines),
        k <= lines.len(),
    ensures
        fold_lines(printed(lines, k), 1, empty_pass1()) is Ok,
        pass_state_ok(fold_lines(printed(lines, k), 1, empty_pass1())->Ok_0, p, lines, k),
    decreases k,
{
    if k == 0 {
        if lines.len() > 0 {
            assert(lines[0].addr == 0);
        }
    } else {
        lemma_fold_printed(p, lines, (k - 1) as nat);
        let prev = printed(lines, (k - 1) as nat);
        let st = fold_lines(prev, 1, empty_pass1())->Ok_0;
        lemma_fold_append(prev, instr_lines(lines[k - 1], lines), 1, empty_pass1());
        lemma_instr_step(p, lines, (k - 1) as nat, st, 1 + prev.len());
    }
}

proof fn lemma_printed_plain(lines: Seq<Line>, k: nat)
    requires
        k <= lines.len(),
    ensures
        forall|i: int| 0 <= i < printed(lines, k).len() ==> plain(#[trigger] printed(lines, k)[i]),
    decreases k,
{
    if k > 0 {
        lemma_printed_plain(lines, (k - 1) as nat);
        let l = lines[k - 1];
        let prev = printed(lines, (k - 1) as nat);
        let il = instr_lines(l, lines);
        lemma_op_text_plain(l, lines);
        lemma_plain_pieces(Mnemonic::Move, l.addr as u8);
        lemma_plain_concat(label_text(l.addr as u8), seq![COLON]);
        assert forall|i: int| 0 <= i < printed(lines, k).len() implies plain(
            #[trigger] printed(lines, k)[i],
        ) by {
            if i < prev.len() {
                assert(printed(lines, k)[i] == prev[i]);
            } else {
                assert(printed(lines, k)[i] == il[i - prev.len()]);
            }
        }
    }
}

/// Every branch that is not a boss's health goes to an instruction boundary.
pub open spec fn branches_land(lines: Seq<Line>) -> bool {
    forall|k: int|
        0 <= k < lines.len() && !((#[trigger] lines[k]).op is SetJumpOnDamage) && lines[k].op.target()
            is Some ==> is_boundary(lines, lines[k].op.target()->Some_0 as int)
}

/// A statement read back from instruction `j` resolves to that instruction.
proof fn lemma_resolve_one(p: Seq<u8>, lines: Seq<Line>, j: int, sm: StmtModel)
    requires
        p.len() <= 256,
        scanned_from(p, 0, lines),
        branches_land(lines),
        0 <= j < lines.len(),
        sm.op == read_back(lines[j], lines).0,
        sm.label == read_back(lines[j], lines).1,
    ensures
        resolve_stmt(sm, label_list(lines, lines.len())) == Ok::<Op, crate::assembler::AsmFault>(
            lines[j].op,
        ),
{
    let l = lines[j];
    let labels = label_list(lines, lines.len());
    assert(line_ok(p, 0, l, next_addr(p, lines, j)));
    if let Some(t) = l.op.target() {
        if sm.label is Some {
            assert(is_boundary(lines, t as int));
            let j2 = choose|k: int| 0 <= k < lines.len() && k < lines.len() && #[trigger] lines[k].addr == t as int;
            assert(is_target(lines, lines[j2].addr as int)) by {
                assert(lines[j].op.target() == Some(t));
            }
            lemma_label_present(lines, lines.len(), j2);
            let i0 = choose|i: int| 0 <= i < labels.len() && #[trigger] labels[i].1 == lines[j2].addr as u8;
            lemma_label_entries(p, lines, lines.len());
            lemma_find_label_at(labels, t, 0, i0);
        }
    }
}

proof fn lemma_resolve_printed(p: Seq<u8>, lines: Seq<Line>, st: Pass1, j: nat)
    requires
        p.len() <= 256,
        scanned_from(p, 0, lines),
        branches_land(lines),
        pass_state_ok(st, p, lines, lines.len()),
        j <= lines.len(),
    ensures
        resolve_all(st.stmts.take(j as int), st.labels) == Ok::<Seq<Op>, crate::assembler::AsmFault>(
            ops_of(lines).take(j as int),
        ),
    decreases j,
{
    if j == 0 {
        assert(st.stmts.take(0) =~= Seq::<StmtModel>::empty());
        assert(ops_of(lines).take(0) =~= Seq::<Op>::empty());
    } else {
        lemma_resolve_printed(p, lines, st, (j - 1) as nat);
        assert(st.stmts.take(j as int).drop_last() =~= st.stmts.take(j - 1));
        assert(st.stmts.take(j as int).last() == st.stmts[j - 1]);
        lemma_resolve_one(p, lines, j - 1, st.stmts[j - 1]);
        assert(ops_of(lines).take(j as int) =~= ops_of(lines).take(j - 1).push(lines[j - 1].op));
    }
}

/// A program that the disassembler reads back whole: at most 256 bytes that
/// decode one instruction after another to the end, with every branch (but
/// the health operand of `set_jump_on_damage`) going to an instruction boundary.
pub open spec fn legal(p: Seq<u8>) -> bool {
    &&& p.len() <= 256
    &&& scan_lines(p, 0) is Ok
    &&& branches_land(scan_lines(p, 0)->Ok_0)
}

/// Disassembling a legal program and assembling the text gives the program back.
pub proof fn lemma_round_trip(p: Seq<u8>)
    requires
        legal(p),
    ensures
        disasm_spec(p) is Ok,
        assemble_spec(disasm_spec(p)->Ok_0) == Ok::<Seq<u8>, crate::assembler::AsmFault>(p),
{
    let lines = scan_lines(p, 0)->Ok_0;
    let n = lines.len();
    lemma_scan(p, 0);
    let text = render(lines, n);
    lemma_render_joined(lines, n);
    lemma_printed_plain(lines, n);
    lemma_pass1_joined(Seq::empty(), printed(lines, n), 1, empty_pass1());
    assert(Seq::<u8>::empty() + joined(printed(lines, n)) =~= text);
    lemma_fold_printed(p, lines, n);
    let st = fold_lines(printed(lines, n), 1, empty_pass1())->Ok_0;
    lemma_resolve_printed(p, lines, st, n);
    assert(st.stmts.take(n as int) =~= st.stmts);
    assert(ops_of(lines).take(n as int) =~= ops_of(lines));
    assert(p.skip(0) =~= p);
}

} // verus!
