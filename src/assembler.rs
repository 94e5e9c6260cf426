//! The two-pass assembler: source text to program bytes.

use vstd::prelude::*;
use vstd::string::StringExecFns;

use crate::direction::Direction;
use crate::op::Op;
use crate::syntax::{in_class, mnemonic_bytes, next_token, next_token_spec, Class, Mnemonic, TokenKind};

verus! {

broadcast use crate::direction::group_direction;

/// Why a source text does not assemble.
#[derive(Debug, PartialEq, Eq)]
pub enum AsmError {
    Parse { lineno: usize, msg: String },
    Overflow { lineno: usize },
    UndefinedLabel { lineno: usize, label: String },
    SetJumpOnDamageZero { lineno: usize },
}

pub type AsmResult<T> = Result<T, AsmError>;

/// An assembly error, without the wording of the message.
pub enum AsmFault {
    Parse { lineno: nat },
    Overflow { lineno: nat },
    UndefinedLabel { lineno: nat, label: Seq<char> },
    SetJumpOnDamageZero { lineno: nat },
}

impl AsmError {
    pub open spec fn fault(self) -> AsmFault {
        match self {
            AsmError::Parse { lineno, .. } => AsmFault::Parse { lineno: lineno as nat },
            AsmError::Overflow { lineno } => AsmFault::Overflow { lineno: lineno as nat },
            AsmError::UndefinedLabel { lineno, label } => AsmFault::UndefinedLabel {
                lineno: lineno as nat,
                label: label@,
            },
            AsmError::SetJumpOnDamageZero { lineno } => AsmFault::SetJumpOnDamageZero {
                lineno: lineno as nat,
            },
        }
    }
}

/// ASCII bytes read as characters.
pub open spec fn ascii_chars(b: Seq<u8>) -> Seq<char> {
    b.map_values(|c: u8| c as char)
}

/// Relies on `String::from_utf8_lossy`: bytes that are valid UTF-8, as ASCII
/// is, come out as the same text.
#[verifier::external_body]
fn text_of(b: &[u8]) -> (r: String)
    ensures
        (forall|i: int| 0 <= i < b@.len() ==> b@[i] < 0x80) ==> r@ == ascii_chars(b@),
{
    String::from_utf8_lossy(b).into_owned()
}

/// The byte `;` that starts a comment, and the line break.
pub const SEMICOLON: u8 = 0x3B;

pub const NEWLINE: u8 = 0x0A;

pub const CARRIAGE_RETURN: u8 = 0x0D;

/// What a line holds, once read.
pub enum LineItem {
    Blank,
    Label(Seq<u8>),
    Stmt(Op, Option<Seq<u8>>),
}

/// A statement of the first pass: where it came from, where it goes, and the
/// label its operand still waits for.
pub struct StmtModel {
    pub lineno: nat,
    pub addr: nat,
    pub op: Op,
    pub label: Option<Seq<u8>>,
}

/// The state of the first pass.
pub struct Pass1 {
    pub addr: nat,
    pub stmts: Seq<StmtModel>,
    pub labels: Seq<(Seq<u8>, u8)>,
}

/// The next token is the end of the line.
pub open spec fn at_end(s: Seq<u8>, pos: nat) -> bool {
    next_token_spec(s, pos) is None
}

/// A number token at `pos`: its value and where it ends.
pub open spec fn number_at(s: Seq<u8>, pos: nat) -> Option<(u8, nat)> {
    match next_token_spec(s, pos) {
        Some(t) => match t.kind {
            TokenKind::Number(v) => Some((v, t.end as nat)),
            _ => None,
        },
        None => None,
    }
}

/// A label reference at `pos`: its name and where it ends.
pub open spec fn label_ref_at(s: Seq<u8>, pos: nat) -> Option<(Seq<u8>, nat)> {
    match next_token_spec(s, pos) {
        Some(t) => match t.kind {
            TokenKind::LabelReference => Some(
                (s.subrange(t.start as int, t.end as int), t.end as nat),
            ),
            _ => None,
        },
        None => None,
    }
}

/// A comma at `pos`: where it ends.
pub open spec fn comma_at(s: Seq<u8>, pos: nat) -> Option<nat> {
    match next_token_spec(s, pos) {
        Some(t) => match t.kind {
            TokenKind::Comma => Some(t.end as nat),
            _ => None,
        },
        None => None,
    }
}

/// How a mnemonic takes its operands.
#[derive(Clone, Copy, Debug, PartialEq, Eq, Structural)]
pub enum Shape {
    /// None.
    Bare,
    /// A label reference.
    Branch,
    /// One number, at most `max`, and never 1 where `not_one`.
    Number { max: u8, not_one: bool },
    /// Two numbers separated by a comma, each at most `max`.
    Pair { max: u8 },
}

pub open spec fn shape_spec(m: Mnemonic) -> Shape {
    match m {
        Mnemonic::LoopEnd | Mnemonic::UnsetJumpOnDamage | Mnemonic::IncrementSprite
        | Mnemonic::DecrementSprite => Shape::Bare,
        Mnemonic::Jump | Mnemonic::SetJumpOnDamage | Mnemonic::BccX | Mnemonic::BcsX
        | Mnemonic::BccY | Mnemonic::BcsY => Shape::Branch,
        Mnemonic::Move => Shape::Number { max: 0x3F, not_one: false },
        Mnemonic::LoopBegin => Shape::Number { max: 0xF, not_one: true },
        Mnemonic::ShootDirection | Mnemonic::SetSleepTimer | Mnemonic::SetSprite
        | Mnemonic::SetHomingTimer | Mnemonic::ShootAim | Mnemonic::ChangeMusic => Shape::Number {
            max: 0xF,
            not_one: false,
        },
        Mnemonic::SetHealth | Mnemonic::SetPart | Mnemonic::RandomizeX | Mnemonic::RandomizeY =>
            Shape::Number { max: 0xFF, not_one: false },
        Mnemonic::SetInversion => Shape::Pair { max: 1 },
        Mnemonic::SetPosition => Shape::Pair { max: 0xFF },
    }
}

/// The instruction a mnemonic stands for with operands `a` and `b`; a branch
/// gets a placeholder operand until its label is resolved.
pub open spec fn op_of(m: Mnemonic, a: u8, b: u8) -> Op {
    match m {
        Mnemonic::Move => Op::Move(Direction::spec_new(a)),
        Mnemonic::Jump => Op::Jump(0),
        Mnemonic::SetSleepTimer => Op::SetSleepTimer(a),
        Mnemonic::LoopBegin => Op::LoopBegin(a),
        Mnemonic::LoopEnd => Op::LoopEnd,
        Mnemonic::ShootDirection => Op::ShootDirection(Direction::spec_new(a)),
        Mnemonic::SetSprite => Op::SetSprite(a),
        Mnemonic::SetHomingTimer => Op::SetHomingTimer(a),
        Mnemonic::SetInversion => Op::SetInversion(a != 0, b != 0),
        Mnemonic::SetPosition => Op::SetPosition(a, b),
        Mnemonic::SetJumpOnDamage => Op::SetJumpOnDamage(0xFF),
        Mnemonic::UnsetJumpOnDamage => Op::SetJumpOnDamage(0),
        Mnemonic::SetHealth => Op::SetJumpOnDamage(a),
        Mnemonic::IncrementSprite => Op::IncrementSprite,
        Mnemonic::DecrementSprite => Op::DecrementSprite,
        Mnemonic::SetPart => Op::SetPart(a),
        Mnemonic::RandomizeX => Op::RandomizeX(a),
        Mnemonic::RandomizeY => Op::RandomizeY(a),
        Mnemonic::BccX => Op::BccX(0),
        Mnemonic::BcsX => Op::BcsX(0),
        Mnemonic::BccY => Op::BccY(0),
        Mnemonic::BcsY => Op::BcsY(0),
        Mnemonic::ShootAim => Op::ShootAim(a),
        Mnemonic::ChangeMusic => Op::ChangeMusic(a),
    }
}

/// The operands of mnemonic `m` from `pos` to the end of the line.
pub open spec fn operands_spec(s: Seq<u8>, pos: nat, m: Mnemonic) -> Option<
    (Op, Option<Seq<u8>>),
> {
    match shape_spec(m) {
        Shape::Bare => if at_end(s, pos) {
            Some((op_of(m, 0, 0), None))
        } else {
            None
        },
        Shape::Branch => match label_ref_at(s, pos) {
            Some((name, p)) => if at_end(s, p) {
                Some((op_of(m, 0, 0), Some(name)))
            } else {
                None
            },
            None => None,
        },
        Shape::Number { max, not_one } => match number_at(s, pos) {
            Some((v, p)) => if v <= max && !(not_one && v == 1) && at_end(s, p) {
                Some((op_of(m, v, 0), None))
            } else {
                None
            },
            None => None,
        },
        Shape::Pair { max } => match number_at(s, pos) {
            Some((a, p1)) => match comma_at(s, p1) {
                Some(p2) => match number_at(s, p2) {
                    Some((b, p3)) => if a <= max && b <= max && at_end(s, p3) {
                        Some((op_of(m, a, b), None))
                    } else {
                        None
                    },
                    None => None,
                },
                None => None,
            },
            None => None,
        },
    }
}

/// What a line without its comment holds, or `None` when it does not parse.
pub open spec fn parse_line_spec(s: Seq<u8>) -> Option<LineItem> {
    match next_token_spec(s, 0) {
        None => Some(LineItem::Blank),
        Some(t) => match t.kind {
            TokenKind::LabelDefinition => if at_end(s, t.end as nat) {
                Some(LineItem::Label(s.subrange(t.start as int, t.end - 1)))
            } else {
                None
            },
            TokenKind::Mnemonic(m) => match operands_spec(s, t.end as nat, m) {
                Some((op, l)) => Some(LineItem::Stmt(op, l)),
                None => None,
            },
            _ => None,
        },
    }
}

/// The address of the first definition of `name` from position `i` of `labels` on.
pub open spec fn find_label_from(labels: Seq<(Seq<u8>, u8)>, name: Seq<u8>, i: nat) -> Option<u8>
    decreases labels.len() - i,
{
    if i >= labels.len() {
        None
    } else if labels[i as int].0 == name {
        Some(labels[i as int].1)
    } else {
        find_label_from(labels, name, i + 1)
    }
}

pub open spec fn find_label(labels: Seq<(Seq<u8>, u8)>, name: Seq<u8>) -> Option<u8> {
    find_label_from(labels, name, 0)
}

/// The index of the first `b` in `s` from `i` on, or `s.len()`.
pub open spec fn find_byte(s: Seq<u8>, i: nat, b: u8) -> nat
    decreases s.len() - i,
{
    if i >= s.len() || s[i as int] == b {
        i
    } else {
        find_byte(s, i + 1, b)
    }
}

/// A line without its comment.
pub open spec fn trim_comment_spec(line: Seq<u8>) -> Seq<u8> {
    line.take(find_byte(line, 0, SEMICOLON) as int)
}

/// One line of the first pass: its item is taken in, then the code may not
/// have grown past 256 bytes.
pub open spec fn line_step(st: Pass1, lineno: nat, line: Seq<u8>) -> Result<Pass1, AsmFault> {
    match apply_item(st, lineno, parse_line_spec(trim_comment_spec(line))) {
        Err(f) => Err(f),
        Ok(st2) => if st2.addr > 0x100 {
            Err(AsmFault::Overflow { lineno })
        } else {
            Ok(st2)
        },
    }
}

/// The first pass takes in what line `lineno` holds. It fails only with a
/// parse error: on a line that does not parse, a label defined twice, or a
/// label at address 0x100, which no byte operand can name.
pub open spec fn apply_item(st: Pass1, lineno: nat, item: Option<LineItem>) -> Result<
    Pass1,
    AsmFault,
> {
    match item {
        None => Err(AsmFault::Parse { lineno }),
        Some(LineItem::Blank) => Ok(st),
        Some(LineItem::Label(name)) => if find_label(st.labels, name) is Some {
            Err(AsmFault::Parse { lineno })
        } else if st.addr > 0xFF {
            Err(AsmFault::Parse { lineno })
        } else {
            Ok(Pass1 { labels: st.labels.push((name, st.addr as u8)), ..st })
        },
        Some(LineItem::Stmt(op, l)) => Ok(
            Pass1 {
                addr: st.addr + op.spec_len(),
                stmts: st.stmts.push(StmtModel { lineno, addr: st.addr, op, label: l }),
                ..st
            },
        ),
    }
}

/// A line of the source from `pos`, without its line break (`\n` or `\r\n`).
pub open spec fn line_from(src: Seq<u8>, pos: nat) -> Seq<u8> {
    let raw = src.subrange(pos as int, find_byte(src, pos, NEWLINE) as int);
    if raw.len() > 0 && raw.last() == CARRIAGE_RETURN {
        raw.drop_last()
    } else {
        raw
    }
}

/// The first pass over the lines from `pos` on, the first being number `lineno`.
pub open spec fn pass1_from(src: Seq<u8>, pos: nat, lineno: nat, st: Pass1) -> Result<
    Pass1,
    AsmFault,
>
    decreases src.len() + 1 - pos
        via pass1_from_decreases
{
    if pos >= src.len() {
        Ok(st)
    } else {
        match line_step(st, lineno, line_from(src, pos)) {
            Err(f) => Err(f),
            Ok(st2) => pass1_from(src, find_byte(src, pos, NEWLINE) + 1, lineno + 1, st2),
        }
    }
}

#[via_fn]
proof fn pass1_from_decreases(src: Seq<u8>, pos: nat, lineno: nat, st: Pass1) {
    lemma_find_byte(src, pos, NEWLINE);
}

/// A search moves forward and stops at the byte or at the end.
pub proof fn lemma_find_byte(s: Seq<u8>, i: nat, b: u8)
    ensures
        i <= find_byte(s, i, b),
        i <= s.len() ==> find_byte(s, i, b) <= s.len(),
        find_byte(s, i, b) < s.len() ==> s[find_byte(s, i, b) as int] == b,
        forall|j: int| i <= j < find_byte(s, i, b) ==> s[j] != b,
    decreases s.len() - i,
{
    if i < s.len() && s[i as int] != b {
        lemma_find_byte(s, i + 1, b);
    }
}

/// A statement with its label replaced by the label's address.
pub open spec fn resolve_stmt(st: StmtModel, labels: Seq<(Seq<u8>, u8)>) -> Result<Op, AsmFault> {
    match st.label {
        None => Ok(st.op),
        Some(name) => match find_label(labels, name) {
            None => Err(AsmFault::UndefinedLabel { lineno: st.lineno, label: ascii_chars(name) }),
            Some(a) => match st.op {
                Op::SetJumpOnDamage(_) => if a == 0 {
                    Err(AsmFault::SetJumpOnDamageZero { lineno: st.lineno })
                } else {
                    Ok(Op::SetJumpOnDamage(a))
                },
                Op::Jump(_) => Ok(Op::Jump(a)),
                Op::BccX(_) => Ok(Op::BccX(a)),
                Op::BcsX(_) => Ok(Op::BcsX(a)),
                Op::BccY(_) => Ok(Op::BccY(a)),
                Op::BcsY(_) => Ok(Op::BcsY(a)),
                _ => Ok(st.op),
            },
        },
    }
}

/// The second pass: every statement resolved, or the first that cannot be.
pub open spec fn resolve_all(stmts: Seq<StmtModel>, labels: Seq<(Seq<u8>, u8)>) -> Result<
    Seq<Op>,
    AsmFault,
>
    decreases stmts.len(),
{
    if stmts.len() == 0 {
        Ok(Seq::empty())
    } else {
        match resolve_all(stmts.drop_last(), labels) {
            Err(f) => Err(f),
            Ok(ops) => match resolve_stmt(stmts.last(), labels) {
                Err(f) => Err(f),
                Ok(op) => Ok(ops.push(op)),
            },
        }
    }
}

/// The encodings of the instructions, one after another.
pub open spec fn flatten(ops: Seq<Op>) -> Seq<u8>
    decreases ops.len(),
{
    if ops.len() == 0 {
        Seq::empty()
    } else {
        flatten(ops.drop_last()) + ops.last().bytes()
    }
}

pub open spec fn empty_pass1() -> Pass1 {
    Pass1 { addr: 0, stmts: Seq::empty(), labels: Seq::empty() }
}

/// The bytes that a source text assembles to, or the first error.
pub open spec fn assemble_spec(src: Seq<u8>) -> Result<Seq<u8>, AsmFault> {
    match pass1_from(src, 0, 1, empty_pass1()) {
        Err(f) => Err(f),
        Ok(st) => match resolve_all(st.stmts, st.labels) {
            Err(f) => Err(f),
            Ok(ops) => Ok(flatten(ops)),
        },
    }
}

/// The number of bytes that the statements take.
pub open spec fn total_len(stmts: Seq<StmtModel>) -> nat
    decreases stmts.len(),
{
    if stmts.len() == 0 {
        0
    } else {
        total_len(stmts.drop_last()) + stmts.last().op.spec_len()
    }
}

/// The first pass keeps its address at the length of its statements, within 256 bytes.
proof fn lemma_pass1_len(src: Seq<u8>, pos: nat, lineno: nat, st: Pass1)
    requires
        st.addr == total_len(st.stmts),
        st.addr <= 0x100,
    ensures
        pass1_from(src, pos, lineno, st) matches Ok(st2) ==> st2.addr == total_len(st2.stmts)
            && st2.addr <= 0x100,
    decreases src.len() + 1 - pos,
{
    if pos < src.len() {
        lemma_find_byte(src, pos, NEWLINE);
        match line_step(st, lineno, line_from(src, pos)) {
            Ok(st2) => {
                if st2.stmts.len() > st.stmts.len() {
                    assert(st2.stmts.drop_last() =~= st.stmts);
                }
                lemma_pass1_len(src, find_byte(src, pos, NEWLINE) + 1, lineno + 1, st2);
            },
            Err(_) => {},
        }
    }
}

/// Resolving labels keeps each instruction's length.
proof fn lemma_resolve_len(stmts: Seq<StmtModel>, labels: Seq<(Seq<u8>, u8)>)
    ensures
        resolve_all(stmts, labels) matches Ok(ops) ==> flatten(ops).len() == total_len(stmts),
    decreases stmts.len(),
{
    if stmts.len() > 0 {
        lemma_resolve_len(stmts.drop_last(), labels);
        if let Ok(ops) = resolve_all(stmts, labels) {
            let prev = resolve_all(stmts.drop_last(), labels)->Ok_0;
            assert(ops.drop_last() =~= prev);
            crate::op::lemma_encoded_length(ops.last());
            crate::op::lemma_encoded_length(stmts.last().op);
        }
    }
}

/// What assembles is as long as all its statements together, and takes at
/// most 256 bytes; [`lemma_overflow_line`] gives the failure past that bound.
pub proof fn lemma_assembled_fits(src: Seq<u8>)
    ensures
        assemble_spec(src) matches Ok(b) ==> b.len() <= 0x100,
        assemble_spec(src) matches Ok(b) ==> (pass1_from(src, 0, 1, empty_pass1()) matches Ok(st)
            && b.len() == total_len(st.stmts) && b.len() == st.addr),
{
    lemma_pass1_len(src, 0, 1, empty_pass1());
    if let Ok(st) = pass1_from(src, 0, 1, empty_pass1()) {
        lemma_resolve_len(st.stmts, st.labels);
    }
}

/// Once the lines before line `k` (which starts at `pos`) have been read
/// without error into `st`, a line `k` that reads fine but takes the code past
/// 256 bytes makes the assembly fail with `Overflow` at line `k`.
pub proof fn lemma_overflow_line(src: Seq<u8>, pos: nat, k: nat, st: Pass1)
    requires
        pos < src.len(),
        pass1_from(src, 0, 1, empty_pass1()) == pass1_from(src, pos, k, st),
        apply_item(st, k, parse_line_spec(trim_comment_spec(line_from(src, pos)))) matches Ok(
            st2,
        ) && st2.addr > 0x100,
    ensures
        assemble_spec(src) == Err::<Seq<u8>, AsmFault>(AsmFault::Overflow { lineno: k }),
{
}

/// Identifier bytes: letters, digits and `_`.
pub open spec fn is_word(s: Seq<u8>) -> bool {
    forall|j: int| 0 <= j < s.len() ==> in_class(#[trigger] s[j], Class::Word)
}

/// Every label that the statements still wait for is an identifier.
pub open spec fn labels_are_words(stmts: Seq<StmtModel>) -> bool {
    forall|k: int| 0 <= k < stmts.len() ==> (#[trigger] stmts[k].label matches Some(n) ==> is_word(n))
}

/// A statement of the first pass.
#[derive(Debug)]
struct Statement {
    lineno: usize,
    addr: usize,
    op: Op,
    label: Option<Vec<u8>>,
}

/// A label definition.
#[derive(Debug)]
struct LabelDef {
    name: Vec<u8>,
    addr: u8,
}

impl Statement {
    spec fn model(self) -> StmtModel {
        StmtModel {
            lineno: self.lineno as nat,
            addr: self.addr as nat,
            op: self.op,
            label: match self.label {
                Some(v) => Some(v@),
                None => None,
            },
        }
    }

    fn new(lineno: usize, addr: usize, op: Op) -> (r: Self)
        ensures
            r.model() == (StmtModel { lineno: lineno as nat, addr: addr as nat, op, label: None }),
    {
        Self { lineno, addr, op, label: None }
    }

    fn with_label(lineno: usize, addr: usize, op: Op, label: Vec<u8>) -> (r: Self)
        ensures
            r.model() == (StmtModel {
                lineno: lineno as nat,
                addr: addr as nat,
                op,
                label: Some(label@),
            }),
    {
        Self { lineno, addr, op, label: Some(label) }
    }
}

spec fn stmts_model(v: Seq<Statement>) -> Seq<StmtModel> {
    v.map_values(|st: Statement| st.model())
}

spec fn labels_model(v: Seq<LabelDef>) -> Seq<(Seq<u8>, u8)> {
    v.map_values(|l: LabelDef| (l.name@, l.addr))
}

/// A copy of `s[a..b]`.
fn copy_range(s: &[u8], a: usize, b: usize) -> (r: Vec<u8>)
    requires
        a <= b <= s@.len(),
    ensures
        r@ == s@.subrange(a as int, b as int),
{
    let mut r: Vec<u8> = Vec::new();
    let mut k = a;
    while k < b
        invariant
            a <= k <= b <= s@.len(),
            r@ == s@.subrange(a as int, k as int),
        decreases b - k,
    {
        r.push(s[k]);
        k = k + 1;
        proof {
            assert(r@ =~= s@.subrange(a as int, k as int));
        }
    }
    r
}

/// Whether two byte strings are equal.
fn same_bytes(a: &[u8], b: &[u8]) -> (r: bool)
    ensures
        r == (a@ == b@),
{
    if a.len() != b.len() {
        return false;
    }
    let mut k: usize = 0;
    while k < a.len()
        invariant
            a@.len() == b@.len(),
            k <= a@.len(),
            forall|j: int| 0 <= j < k ==> a@[j] == b@[j],
        decreases a@.len() - k,
    {
        if a[k] != b[k] {
            return false;
        }
        k = k + 1;
    }
    proof {
        assert(a@ =~= b@);
    }
    true
}

/// The address of label `name`, if it is defined.
fn find_label_exec(labels: &Vec<LabelDef>, name: &[u8]) -> (r: Option<u8>)
    ensures
        r == find_label(labels_model(labels@), name@),
{
    let ghost lm = labels_model(labels@);
    let mut i: usize = 0;
    while i < labels.len()
        invariant
            i <= labels@.len(),
            lm == labels_model(labels@),
            find_label(lm, name@) == find_label_from(lm, name@, i as nat),
        decreases labels@.len() - i,
    {
        if same_bytes(labels[i].name.as_slice(), name) {
            return Some(labels[i].addr);
        }
        i = i + 1;
    }
    None
}

/// A parse error for line `lineno`: `what` followed by the text of `s[a..b]`.
fn parse_error(lineno: usize, what: &str, s: &[u8], a: usize, b: usize) -> (r: AsmError)
    requires
        a <= b <= s@.len(),
    ensures
        r.fault() == (AsmFault::Parse { lineno: lineno as nat }),
{
    let mut msg = String::from_str(what);
    let text = text_of(slice_range(s, a, b));
    msg.append(text.as_str());
    AsmError::Parse { lineno, msg }
}

/// `s[a..b]`.
fn slice_range(s: &[u8], a: usize, b: usize) -> (r: &[u8])
    requires
        a <= b <= s@.len(),
    ensures
        r@ == s@.subrange(a as int, b as int),
{
    let r = &s[a..b];
    proof {
        assert(r@ =~= s@.subrange(a as int, b as int));
    }
    r
}

fn shape(m: Mnemonic) -> (r: Shape)
    ensures
        r == shape_spec(m),
{
    match m {
        Mnemonic::LoopEnd | Mnemonic::UnsetJumpOnDamage | Mnemonic::IncrementSprite
        | Mnemonic::DecrementSprite => Shape::Bare,
        Mnemonic::Jump | Mnemonic::SetJumpOnDamage | Mnemonic::BccX | Mnemonic::BcsX
        | Mnemonic::BccY | Mnemonic::BcsY => Shape::Branch,
        Mnemonic::Move => Shape::Number { max: 0x3F, not_one: false },
        Mnemonic::LoopBegin => Shape::Number { max: 0xF, not_one: true },
        Mnemonic::ShootDirection | Mnemonic::SetSleepTimer | Mnemonic::SetSprite
        | Mnemonic::SetHomingTimer | Mnemonic::ShootAim | Mnemonic::ChangeMusic => Shape::Number {
            max: 0xF,
            not_one: false,
        },
        Mnemonic::SetHealth | Mnemonic::SetPart | Mnemonic::RandomizeX | Mnemonic::RandomizeY =>
            Shape::Number { max: 0xFF, not_one: false },
        Mnemonic::SetInversion => Shape::Pair { max: 1 },
        Mnemonic::SetPosition => Shape::Pair { max: 0xFF },
    }
}

/// Builds the instruction of mnemonic `m` whose operands passed the checks of its shape.
fn build_op(m: Mnemonic, a: u8, b: u8) -> (r: Op)
    requires
        shape_spec(m) matches Shape::Number { max, not_one } ==> a <= max && !(not_one && a
            == 1),
        shape_spec(m) matches Shape::Pair { max } ==> a <= max && b <= max,
    ensures
        r == op_of(m, a, b),
        r.wf(),
{
    match m {
        Mnemonic::Move => Op::new_move(Direction::new(a)),
        Mnemonic::Jump => Op::new_jump(0),
        Mnemonic::SetSleepTimer => Op::new_set_sleep_timer(a),
        Mnemonic::LoopBegin => Op::new_loop_begin(a),
        Mnemonic::LoopEnd => Op::new_loop_end(),
        Mnemonic::ShootDirection => Op::new_shoot_direction(Direction::new(a)),
        Mnemonic::SetSprite => Op::new_set_sprite(a),
        Mnemonic::SetHomingTimer => Op::new_set_homing_timer(a),
        Mnemonic::SetInversion => Op::new_set_inversion(a != 0, b != 0),
        Mnemonic::SetPosition => Op::new_set_position(a, b),
        Mnemonic::SetJumpOnDamage => Op::new_set_jump_on_damage(0xFF),
        Mnemonic::UnsetJumpOnDamage => Op::new_set_jump_on_damage(0),
        Mnemonic::SetHealth => Op::new_set_jump_on_damage(a),
        Mnemonic::IncrementSprite => Op::new_increment_sprite(),
        Mnemonic::DecrementSprite => Op::new_decrement_sprite(),
        Mnemonic::SetPart => Op::new_set_part(a),
        Mnemonic::RandomizeX => Op::new_randomize_x(a),
        Mnemonic::RandomizeY => Op::new_randomize_y(a),
        Mnemonic::BccX => Op::new_bcc_x(0),
        Mnemonic::BcsX => Op::new_bcs_x(0),
        Mnemonic::BccY => Op::new_bcc_y(0),
        Mnemonic::BcsY => Op::new_bcs_y(0),
        Mnemonic::ShootAim => Op::new_shoot_aim(a),
        Mnemonic::ChangeMusic => Op::new_change_music(a),
    }
}

/// A number token at `pos`.
fn expect_number(s: &[u8], pos: usize) -> (r: Option<(u8, usize)>)
    requires
        pos <= s@.len(),
    ensures
        (r is None) == (number_at(s@, pos as nat) is None),
        r matches Some((v, p)) ==> number_at(s@, pos as nat) == Some((v, p as nat)) && p
            <= s@.len(),
{
    match next_token(s, pos) {
        Some(t) => match t.kind {
            TokenKind::Number(v) => Some((v, t.end)),
            _ => None,
        },
        None => None,
    }
}

/// The end of the line follows at `pos`.
fn expect_end(s: &[u8], pos: usize) -> (r: bool)
    requires
        pos <= s@.len(),
    ensures
        r == at_end(s@, pos as nat),
{
    next_token(s, pos).is_none()
}

/// The operands of mnemonic `m` from `pos` to the end of the line.
fn parse_operands(s: &[u8], pos: usize, m: Mnemonic) -> (r: Option<(Op, Option<Vec<u8>>)>)
    requires
        pos <= s@.len(),
        s@.len() <= usize::MAX,
    ensures
        (r is None) == (operands_spec(s@, pos as nat, m) is None),
        r matches Some((op, l)) ==> operands_spec(s@, pos as nat, m) == Some(
            (
                op,
                match l {
                    Some(v) => Some(v@),
                    None => None::<Seq<u8>>,
                },
            ),
        ) && op.wf() && (l matches Some(v) ==> is_word(v@)),
{
    match shape(m) {
        Shape::Bare => if expect_end(s, pos) {
            Some((build_op(m, 0, 0), None))
        } else {
            None
        },
        Shape::Branch => match next_token(s, pos) {
            Some(t) => match t.kind {
                TokenKind::LabelReference => {
                    if !expect_end(s, t.end) {
                        return None;
                    }
                    proof {
                        lemma_label_ref_is_word(s@, pos as nat);
                    }
                    Some((build_op(m, 0, 0), Some(copy_range(s, t.start, t.end))))
                },
                _ => None,
            },
            None => None,
        },
        Shape::Number { max, not_one } => match expect_number(s, pos) {
            Some((v, p)) => if v <= max && !(not_one && v == 1) && expect_end(s, p) {
                Some((build_op(m, v, 0), None))
            } else {
                None
            },
            None => None,
        },
        Shape::Pair { max } => {
            let (a, p1) = match expect_number(s, pos) {
                Some(x) => x,
                None => return None,
            };
            let p2 = match next_token(s, p1) {
                Some(t) => match t.kind {
                    TokenKind::Comma => t.end,
                    _ => return None,
                },
                None => return None,
            };
            let (b, p3) = match expect_number(s, p2) {
                Some(x) => x,
                None => return None,
            };
            if a <= max && b <= max && expect_end(s, p3) {
                Some((build_op(m, a, b), None))
            } else {
                None
            }
        },
    }
}

/// The name of a label reference is an identifier.
proof fn lemma_label_ref_is_word(s: Seq<u8>, pos: nat)
    requires
        s.len() <= usize::MAX,
    ensures
        label_ref_at(s, pos) matches Some((name, p)) ==> is_word(name),
{
    reveal(next_token_spec);
    let i = crate::syntax::scan_spec(s, pos, Class::Space);
    crate::syntax::lemma_scan_in_class(s, pos, Class::Space);
    crate::syntax::lemma_scan_in_class(s, i, Class::Word);
    if let Some((name, p)) = label_ref_at(s, pos) {
        let t = next_token_spec(s, pos)->Some_0;
        let e = crate::syntax::scan_spec(s, i, Class::Word);
        assert(t.kind == TokenKind::LabelReference);
        assert(i < s.len());
        assert(crate::syntax::is_ident_start(s[i as int]));
        assert(t.start == i && t.end == e);
        assert forall|j: int| 0 <= j < name.len() implies in_class(#[trigger] name[j], Class::Word) by {
            assert(name[j] == s[i + j]);
        }
    }
}

/// Reads one line (its comment already cut off) into the first pass. Every
/// error is a parse error of that line, and leaves the pass as it was.
fn parse_line(
    lineno: usize,
    line: &[u8],
    addr: &mut usize,
    stmts: &mut Vec<Statement>,
    labels: &mut Vec<LabelDef>,
) -> (r: AsmResult<()>)
    requires
        *old(addr) <= 0x100,
        line@.len() <= usize::MAX,
        labels_are_words(stmts_model(old(stmts)@)),
    ensures
        match apply_item(
            Pass1 {
                addr: *old(addr) as nat,
                stmts: stmts_model(old(stmts)@),
                labels: labels_model(old(labels)@),
            },
            lineno as nat,
            parse_line_spec(line@),
        ) {
            Ok(st) => r is Ok && st == (Pass1 {
                addr: *final(addr) as nat,
                stmts: stmts_model(final(stmts)@),
                labels: labels_model(final(labels)@),
            }),
            Err(f) => r is Err && r->Err_0.fault() == f,
        },
        r is Err ==> r->Err_0.fault() == (AsmFault::Parse { lineno: lineno as nat }),
        r is Err ==> *final(addr) == *old(addr) && final(stmts)@ == old(stmts)@ && final(labels)@
            == old(labels)@,
        *final(addr) <= 0x103,
        labels_are_words(stmts_model(final(stmts)@)),
{
    let first = match next_token(line, 0) {
        Some(t) => t,
        None => return Ok(()),
    };
    match first.kind {
        TokenKind::LabelDefinition => {
            if let Some(t) = next_token(line, first.end) {
                return Err(parse_error(lineno, "expected end, but got: ", line, t.start, t.end));
            }
            let name = copy_range(line, first.start, first.end - 1);
            if find_label_exec(labels, name.as_slice()).is_some() {
                return Err(
                    parse_error(lineno, "duplicate label: ", line, first.start, first.end - 1),
                );
            }
            if *addr > 0xFF {
                let mut msg = String::from_str("label past the end of the code: ");
                msg.append(text_of(name.as_slice()).as_str());
                return Err(AsmError::Parse { lineno, msg });
            }
            let ghost old_labels = labels@;
            labels.push(LabelDef { name, addr: *addr as u8 });
            proof {
                assert(labels_model(labels@) =~= labels_model(old_labels).push(
                    (name@, *addr as u8),
                ));
            }
            Ok(())
        },
        TokenKind::Mnemonic(m) => {
            let (op, label) = match parse_operands(line, first.end, m) {
                Some(x) => x,
                None => {
                    let mut msg = String::from_str("invalid operands for ");
                    let text = text_of(mnemonic_bytes(m).as_slice());
                    msg.append(text.as_str());
                    return Err(AsmError::Parse { lineno, msg });
                },
            };
            let ghost old_stmts = stmts@;
            let stmt = match label {
                Some(l) => Statement::with_label(lineno, *addr, op, l),
                None => Statement::new(lineno, *addr, op),
            };
            let ghost sm = stmt.model();
            stmts.push(stmt);
            *addr = *addr + op.len();
            proof {
                assert(stmts_model(stmts@) =~= stmts_model(old_stmts).push(sm));
                assert forall|k: int| 0 <= k < stmts_model(stmts@).len() implies (
                #[trigger] stmts_model(stmts@)[k].label matches Some(n) ==> is_word(n)) by {
                    if k < old_stmts.len() {
                        assert(stmts_model(stmts@)[k] == stmts_model(old_stmts)[k]);
                    }
                }
            }
            Ok(())
        },
        _ => Err(parse_error(lineno, "unexpected token: ", line, first.start, first.end)),
    }
}

/// A failure in a prefix of the statements is the failure of the whole pass.
proof fn lemma_resolve_err_prefix(s: Seq<StmtModel>, labels: Seq<(Seq<u8>, u8)>, k: nat)
    requires
        k <= s.len(),
        resolve_all(s.take(k as int), labels) is Err,
    ensures
        resolve_all(s, labels) == resolve_all(s.take(k as int), labels),
    decreases s.len() - k,
{
    if k < s.len() {
        assert(s.take((k + 1) as int).drop_last() =~= s.take(k as int));
        lemma_resolve_err_prefix(s, labels, k + 1);
    } else {
        assert(s.take(k as int) =~= s);
    }
}

/// The second pass: replaces each label reference by the label's address.
fn resolve_labels(stmts: &Vec<Statement>, labels: &Vec<LabelDef>) -> (r: AsmResult<Vec<Op>>)
    requires
        labels_are_words(stmts_model(stmts@)),
    ensures
        match resolve_all(stmts_model(stmts@), labels_model(labels@)) {
            Ok(ops) => r is Ok && r->Ok_0@ == ops,
            Err(f) => r is Err && r->Err_0.fault() == f,
        },
{
    let ghost sm = stmts_model(stmts@);
    let ghost lm = labels_model(labels@);
    let mut out: Vec<Op> = Vec::new();
    let mut i: usize = 0;
    while i < stmts.len()
        invariant
            i <= stmts@.len(),
            sm == stmts_model(stmts@),
            lm == labels_model(labels@),
            labels_are_words(sm),
            resolve_all(sm.take(i as int), lm) == Ok::<Seq<Op>, AsmFault>(out@),
        decreases stmts@.len() - i,
    {
        let st = &stmts[i];
        proof {
            assert(sm.take(i + 1).drop_last() =~= sm.take(i as int));
            assert(sm.take(i + 1).last() == st.model());
        }
        let op = match &st.label {
            None => st.op,
            Some(name) => match find_label_exec(labels, name.as_slice()) {
                None => {
                    proof {
                        lemma_resolve_err_prefix(sm, lm, (i + 1) as nat);
                        assert(sm[i as int].label == Some(name@));
                        assert forall|j: int| 0 <= j < name@.len() implies name@[j] < 0x80 by {
                            assert(in_class(name@[j], Class::Word));
                        }
                    }
                    return Err(
                        AsmError::UndefinedLabel {
                            lineno: st.lineno,
                            label: text_of(name.as_slice()),
                        },
                    );
                },
                Some(a) => match st.op {
                    Op::SetJumpOnDamage(_) => {
                        if a == 0 {
                            proof {
                                lemma_resolve_err_prefix(sm, lm, (i + 1) as nat);
                            }
                            return Err(AsmError::SetJumpOnDamageZero { lineno: st.lineno });
                        }
                        Op::SetJumpOnDamage(a)
                    },
                    Op::Jump(_) => Op::Jump(a),
                    Op::BccX(_) => Op::BccX(a),
                    Op::BcsX(_) => Op::BcsX(a),
                    Op::BccY(_) => Op::BccY(a),
                    Op::BcsY(_) => Op::BcsY(a),
                    _ => st.op,
                },
            },
        };
        out.push(op);
        i = i + 1;
    }
    proof {
        assert(sm.take(stmts@.len() as int) =~= sm);
    }
    Ok(out)
}

/// The encodings of the instructions, one after another.
fn emit_code(ops: &Vec<Op>) -> (r: Vec<u8>)
    ensures
        r@ == flatten(ops@),
{
    let mut buf: Vec<u8> = Vec::new();
    let mut tmp: Vec<u8> = vec![0, 0, 0];
    let mut i: usize = 0;
    while i < ops.len()
        invariant
            i <= ops@.len(),
            tmp@.len() == 3,
            buf@ == flatten(ops@.take(i as int)),
        decreases ops@.len() - i,
    {
        let op = ops[i];
        proof {
            crate::op::lemma_encoded_length(op);
        }
        op.encode(tmp.as_mut_slice());
        let n = op.len();
        let ghost before = buf@;
        let mut j: usize = 0;
        while j < n
            invariant
                j <= n,
                n == op.spec_len(),
                n <= 3,
                tmp@.len() == 3,
                tmp@.take(n as int) == op.bytes(),
                buf@ == before + op.bytes().take(j as int),
            decreases n - j,
        {
            buf.push(tmp[j]);
            j = j + 1;
            proof {
                assert(buf@ =~= before + op.bytes().take(j as int));
            }
        }
        proof {
            assert(ops@.take(i + 1).drop_last() =~= ops@.take(i as int));
            assert(op.bytes().take(n as int) =~= op.bytes());
        }
        i = i + 1;
    }
    proof {
        assert(ops@.take(ops@.len() as int) =~= ops@);
    }
    buf
}

/// The index of the first `b` in `s` from `i` on, or `s.len()`.
fn find_byte_exec(s: &[u8], i: usize, b: u8) -> (r: usize)
    requires
        i <= s@.len(),
    ensures
        r == find_byte(s@, i as nat, b),
        i <= r <= s@.len(),
{
    let mut j = i;
    while j < s.len() && s[j] != b
        invariant
            i <= j <= s@.len(),
            find_byte(s@, i as nat, b) == find_byte(s@, j as nat, b),
        decreases s@.len() - j,
    {
        j = j + 1;
    }
    j
}

/// A line without its comment.
fn trim_comment(s: &[u8]) -> (r: &[u8])
    ensures
        r@ == trim_comment_spec(s@),
{
    let pos = find_byte_exec(s, 0, SEMICOLON);
    slice_range(s, 0, pos)
}

/// Assembles a source text into a program.
///
/// The first pass reads the lines in order, records each label's address and
/// fails at the first line that does not parse or that would take the code
/// past 256 bytes; the second resolves label references, failing at the first
/// undefined label or `set_jump_on_damage` to address 0.
pub fn assemble(src: &[u8]) -> (r: AsmResult<Vec<u8>>)
    requires
        src@.len() < usize::MAX,
    ensures
        match assemble_spec(src@) {
            Ok(b) => r is Ok && r->Ok_0@ == b,
            Err(f) => r is Err && r->Err_0.fault() == f,
        },
{
    let mut stmts: Vec<Statement> = Vec::new();
    let mut labels: Vec<LabelDef> = Vec::new();
    let mut addr: usize = 0;
    let mut pos: usize = 0;
    let mut lineno: usize = 1;
    proof {
        assert(stmts_model(stmts@) =~= Seq::empty());
        assert(labels_model(labels@) =~= Seq::empty());
    }
    while pos < src.len()
        invariant
            src@.len() < usize::MAX,
            pos <= src@.len() + 1,
            1 <= lineno <= pos + 1,
            addr <= 0x100,
            labels_are_words(stmts_model(stmts@)),
            pass1_from(src@, 0, 1, empty_pass1()) == pass1_from(
                src@,
                pos as nat,
                lineno as nat,
                Pass1 {
                    addr: addr as nat,
                    stmts: stmts_model(stmts@),
                    labels: labels_model(labels@),
                },
            ),
        decreases src@.len() + 1 - pos,
    {
        let end = find_byte_exec(src, pos, NEWLINE);
        let mut line_end = end;
        if line_end > pos && src[line_end - 1] == CARRIAGE_RETURN {
            line_end = line_end - 1;
        }
        let line = slice_range(src, pos, line_end);
        proof {
            let raw = src@.subrange(pos as int, end as int);
            if raw.len() > 0 && raw.last() == CARRIAGE_RETURN {
                assert(raw.drop_last() =~= line@);
            } else {
                assert(raw =~= line@);
            }
            assert(line_from(src@, pos as nat) == line@);
        }
        let body = trim_comment(line);
        proof {
            lemma_find_byte(line@, 0, SEMICOLON);
        }
        if let Err(e) = parse_line(lineno, body, &mut addr, &mut stmts, &mut labels) {
            return Err(e);
        }
        if addr > 0x100 {
            return Err(AsmError::Overflow { lineno });
        }
        pos = end + 1;
        lineno = lineno + 1;
    }
    let ops = match resolve_labels(&stmts, &labels) {
        Ok(ops) => ops,
        Err(e) => return Err(e),
    };
    Ok(emit_code(&ops))
}

} // verus!
