//! The two-pass assembler.
//!
//! Pass 1 walks the syntax nodes in order, computing each instruction's
//! encoded size analytically from its operand kinds and recording each
//! label as the running size plus the program's base offset. Pass 2 walks
//! them again, resolves label references through the finished symbol table,
//! picks the concrete opcode variant from the operand kinds, and emits the
//! final buffer: one reserved leading byte, then the instruction encodings
//! in program order. Any error in either pass aborts the whole compilation
//! with no partial output.
//!
//! Mnemonics are case-insensitive. The symbol table is seeded with the
//! built-in label `._zero`, bound to the program's base offset (the
//! reserved exit-status cell).

use vstd::bytes::spec_u64_to_le_bytes;
use vstd::bytes::u64_to_le_bytes;
use vstd::prelude::*;
use vstd::string::StrSliceExecFns;

use crate::ast::err_view;
use crate::ast::AstNode;
use crate::ast::CompileError;
use crate::ast::GErr;
use crate::ast::Value;
use crate::mem::PROG_OFFSET;
use crate::ops::spec_classify;
use crate::ops::spec_decode;
use crate::ops::spec_op_byte;
use crate::ops::Instr;
use crate::ops::Op;
use crate::ops::SrcKind;
use crate::ops::Width;

verus! {

/// The largest running size pass 1 accepts: leaves room for the base
/// offset and any one instruction without 64-bit overflow.
pub const MAX_PROG_SIZE: u64 = 0xffff_ffff_ffff_0000;

/// The assembler's command mnemonics. Each maps to a family of opcodes;
/// the concrete opcode is picked by the operands' width class and kind.
/// The `B` suffix is the 1-byte class, the `W` suffix the 8-byte class.
#[derive(Clone, Copy, Debug, PartialEq, Eq, Structural)]
pub enum AsmCmd {
    NOP,
    XIT,
    ADDB,
    SUBB,
    MULB,
    DIVB,
    MODB,
    SHRB,
    SHLB,
    ANDB,
    ORRB,
    XORB,
    ADDW,
    SUBW,
    MULW,
    DIVW,
    MODW,
    SHRW,
    SHLW,
    ANDW,
    ORRW,
    XORW,
    ADDF,
    SUBF,
    MULF,
    DIVF,
    CPYB,
    CPYW,
    CPAB,
    CPAW,
    JMP,
    JIT,
    CAL,
    RET,
    ALP,
    FRP,
}

/// How a mnemonic's operands are laid out.
#[derive(Clone, Copy, Debug, PartialEq, Eq, Structural)]
pub enum CmdKind {
    /// No operands; one fixed opcode byte.
    Plain(Op),
    /// Destination address plus an immediate-or-address source, at a width
    /// class; the opcode comes from the family's base.
    IntOp(Width),
    /// Destination and source addresses; one fixed opcode byte.
    FloatOp(Op),
    /// Copy-through: destination and source addresses, at a width class.
    CpaOp(Width),
    /// One address operand after a fixed opcode byte.
    JmpLike(Op),
    /// Two address operands after a fixed opcode byte.
    JitOp,
}

/// ASCII lowercasing of one character.
pub open spec fn lower_char(c: char) -> char {
    match c {
        'A' => 'a',
        'B' => 'b',
        'C' => 'c',
        'D' => 'd',
        'E' => 'e',
        'F' => 'f',
        'G' => 'g',
        'H' => 'h',
        'I' => 'i',
        'J' => 'j',
        'K' => 'k',
        'L' => 'l',
        'M' => 'm',
        'N' => 'n',
        'O' => 'o',
        'P' => 'p',
        'Q' => 'q',
        'R' => 'r',
        'S' => 's',
        'T' => 't',
        'U' => 'u',
        'V' => 'v',
        'W' => 'w',
        'X' => 'x',
        'Y' => 'y',
        'Z' => 'z',
        _ => c,
    }
}

/// ASCII lowercasing of a name.
pub open spec fn lower(s: Seq<char>) -> Seq<char> {
    Seq::new(s.len(), |i: int| lower_char(s[i]))
}

/// The mnemonic a name denotes, case-insensitively.
pub open spec fn cmd_of_name(s: Seq<char>) -> Option<AsmCmd> {
    let l = lower(s);
    if l == "nop"@ {
        Some(AsmCmd::NOP)
    } else if l == "xit"@ {
        Some(AsmCmd::XIT)
    } else if l == "addb"@ {
        Some(AsmCmd::ADDB)
    } else if l == "subb"@ {
        Some(AsmCmd::SUBB)
    } else if l == "mulb"@ {
        Some(AsmCmd::MULB)
    } else if l == "divb"@ {
        Some(AsmCmd::DIVB)
    } else if l == "modb"@ {
        Some(AsmCmd::MODB)
    } else if l == "shrb"@ {
        Some(AsmCmd::SHRB)
    } else if l == "shlb"@ {
        Some(AsmCmd::SHLB)
    } else if l == "andb"@ {
        Some(AsmCmd::ANDB)
    } else if l == "orrb"@ {
        Some(AsmCmd::ORRB)
    } else if l == "xorb"@ {
        Some(AsmCmd::XORB)
    } else if l == "addw"@ {
        Some(AsmCmd::ADDW)
    } else if l == "subw"@ {
        Some(AsmCmd::SUBW)
    } else if l == "mulw"@ {
        Some(AsmCmd::MULW)
    } else if l == "divw"@ {
        Some(AsmCmd::DIVW)
    } else if l == "modw"@ {
        Some(AsmCmd::MODW)
    } else if l == "shrw"@ {
        Some(AsmCmd::SHRW)
    } else if l == "shlw"@ {
        Some(AsmCmd::SHLW)
    } else if l == "andw"@ {
        Some(AsmCmd::ANDW)
    } else if l == "orrw"@ {
        Some(AsmCmd::ORRW)
    } else if l == "xorw"@ {
        Some(AsmCmd::XORW)
    } else if l == "addf"@ {
        Some(AsmCmd::ADDF)
    } else if l == "subf"@ {
        Some(AsmCmd::SUBF)
    } else if l == "mulf"@ {
        Some(AsmCmd::MULF)
    } else if l == "divf"@ {
        Some(AsmCmd::DIVF)
    } else if l == "cpyb"@ {
        Some(AsmCmd::CPYB)
    } else if l == "cpyw"@ {
        Some(AsmCmd::CPYW)
    } else if l == "cpab"@ {
        Some(AsmCmd::CPAB)
    } else if l == "cpaw"@ {
        Some(AsmCmd::CPAW)
    } else if l == "jmp"@ {
        Some(AsmCmd::JMP)
    } else if l == "jit"@ {
        Some(AsmCmd::JIT)
    } else if l == "cal"@ {
        Some(AsmCmd::CAL)
    } else if l == "ret"@ {
        Some(AsmCmd::RET)
    } else if l == "alp"@ {
        Some(AsmCmd::ALP)
    } else if l == "frp"@ {
        Some(AsmCmd::FRP)
    } else {
        None
    }
}

/// The operand layout of each mnemonic.
pub open spec fn spec_cmd_kind(c: AsmCmd) -> CmdKind {
    match c {
        AsmCmd::NOP => CmdKind::Plain(Op::NOP),
        AsmCmd::XIT => CmdKind::Plain(Op::XIT),
        AsmCmd::RET => CmdKind::Plain(Op::RET),
        AsmCmd::ADDB => CmdKind::IntOp(Width::W1),
        AsmCmd::SUBB => CmdKind::IntOp(Width::W1),
        AsmCmd::MULB => CmdKind::IntOp(Width::W1),
        AsmCmd::DIVB => CmdKind::IntOp(Width::W1),
        AsmCmd::MODB => CmdKind::IntOp(Width::W1),
        AsmCmd::SHRB => CmdKind::IntOp(Width::W1),
        AsmCmd::SHLB => CmdKind::IntOp(Width::W1),
        AsmCmd::ANDB => CmdKind::IntOp(Width::W1),
        AsmCmd::ORRB => CmdKind::IntOp(Width::W1),
        AsmCmd::XORB => CmdKind::IntOp(Width::W1),
        AsmCmd::CPYB => CmdKind::IntOp(Width::W1),
        AsmCmd::ADDW => CmdKind::IntOp(Width::W8),
        AsmCmd::SUBW => CmdKind::IntOp(Width::W8),
        AsmCmd::MULW => CmdKind::IntOp(Width::W8),
        AsmCmd::DIVW => CmdKind::IntOp(Width::W8),
        AsmCmd::MODW => CmdKind::IntOp(Width::W8),
        AsmCmd::SHRW => CmdKind::IntOp(Width::W8),
        AsmCmd::SHLW => CmdKind::IntOp(Width::W8),
        AsmCmd::ANDW => CmdKind::IntOp(Width::W8),
        AsmCmd::ORRW => CmdKind::IntOp(Width::W8),
        AsmCmd::XORW => CmdKind::IntOp(Width::W8),
        AsmCmd::CPYW => CmdKind::IntOp(Width::W8),
        AsmCmd::ADDF => CmdKind::FloatOp(Op::ADDF),
        AsmCmd::SUBF => CmdKind::FloatOp(Op::SUBF),
        AsmCmd::MULF => CmdKind::FloatOp(Op::MULF),
        AsmCmd::DIVF => CmdKind::FloatOp(Op::DIVF),
        AsmCmd::CPAB => CmdKind::CpaOp(Width::W1),
        AsmCmd::CPAW => CmdKind::CpaOp(Width::W8),
        AsmCmd::JMP => CmdKind::JmpLike(Op::JMP),
        AsmCmd::CAL => CmdKind::JmpLike(Op::CAL),
        AsmCmd::ALP => CmdKind::JmpLike(Op::ALP),
        AsmCmd::FRP => CmdKind::JmpLike(Op::FRP),
        AsmCmd::JIT => CmdKind::JitOp,
    }
}

/// The base opcode of a width-classed family: the 1-byte immediate
/// variant, from which the others follow by a fixed offset.
pub open spec fn spec_base_op(c: AsmCmd) -> Op {
    match c {
        AsmCmd::ADDB | AsmCmd::ADDW => Op::ADD1,
        AsmCmd::SUBB | AsmCmd::SUBW => Op::SUB1,
        AsmCmd::MULB | AsmCmd::MULW => Op::MUL1,
        AsmCmd::DIVB | AsmCmd::DIVW => Op::DIV1,
        AsmCmd::MODB | AsmCmd::MODW => Op::MOD1,
        AsmCmd::SHRB | AsmCmd::SHRW => Op::SHR1,
        AsmCmd::SHLB | AsmCmd::SHLW => Op::SHL1,
        AsmCmd::ANDB | AsmCmd::ANDW => Op::AND1,
        AsmCmd::ORRB | AsmCmd::ORRW => Op::ORR1,
        AsmCmd::XORB | AsmCmd::XORW => Op::XOR1,
        AsmCmd::CPYB | AsmCmd::CPYW => Op::CPY1,
        AsmCmd::CPAB | AsmCmd::CPAW => Op::CPA1,
        _ => Op::NOP,
    }
}

/// Whether a mnemonic belongs to a width-classed family with a base
/// opcode.
pub open spec fn spec_has_base(c: AsmCmd) -> bool {
    spec_cmd_kind(c) matches CmdKind::IntOp(_) || spec_cmd_kind(c) matches CmdKind::CpaOp(_)
}

/// Whether a value can stand for an address: a label reference or an
/// address literal.
pub open spec fn addr_like(v: Value) -> bool {
    v matches Value::Label(_) || v matches Value::Addr(_)
}

/// Whether a value is a numeric literal.
pub open spec fn numeric(v: Value) -> bool {
    v matches Value::Int(_) || v matches Value::Uint(_)
}

/// The analytically computed encoded size of one command, from its
/// mnemonic and its operands' kinds alone; or the error pass 1 reports.
pub open spec fn size_of_cmd(name: Seq<char>, args: Seq<Value>) -> Result<nat, GErr> {
    match cmd_of_name(name) {
        None => Err(GErr::UnknownMnemonic(name)),
        Some(c) => match spec_cmd_kind(c) {
            CmdKind::Plain(_) => if args.len() != 0 {
                Err(GErr::WrongArgCount(name, 0, args.len() as u64))
            } else {
                Ok(1)
            },
            CmdKind::IntOp(w) => if args.len() != 2 {
                Err(GErr::WrongArgCount(name, 2, args.len() as u64))
            } else if !addr_like(args[0]) {
                Err(GErr::UnsupportedOperand(name, crate::ast::value_view(args[0])))
            } else if addr_like(args[1]) {
                Ok(17)
            } else if numeric(args[1]) {
                Ok((9 + w.spec_bytes()) as nat)
            } else {
                Err(GErr::UnsupportedOperand(name, crate::ast::value_view(args[1])))
            },
            CmdKind::FloatOp(_) | CmdKind::CpaOp(_) => if args.len() != 2 {
                Err(GErr::WrongArgCount(name, 2, args.len() as u64))
            } else if !addr_like(args[0]) {
                Err(GErr::UnsupportedOperand(name, crate::ast::value_view(args[0])))
            } else if !addr_like(args[1]) {
                Err(GErr::UnsupportedOperand(name, crate::ast::value_view(args[1])))
            } else {
                Ok(17)
            },
            CmdKind::JmpLike(_) => if args.len() != 1 {
                Err(GErr::WrongArgCount(name, 1, args.len() as u64))
            } else if !addr_like(args[0]) {
                Err(GErr::UnsupportedOperand(name, crate::ast::value_view(args[0])))
            } else {
                Ok(9)
            },
            CmdKind::JitOp => if args.len() != 2 {
                Err(GErr::WrongArgCount(name, 2, args.len() as u64))
            } else if !addr_like(args[0]) {
                Err(GErr::UnsupportedOperand(name, crate::ast::value_view(args[0])))
            } else if !addr_like(args[1]) {
                Err(GErr::UnsupportedOperand(name, crate::ast::value_view(args[1])))
            } else {
                Ok(17)
            },
        },
    }
}

/// A symbol table as mathematics: label names to resolved addresses, in
/// insertion order, first match wins (pass 1 keeps names unique).
pub open spec fn st_lookup(t: Seq<(Seq<char>, u64)>, name: Seq<char>) -> Option<u64>
    decreases t.len(),
{
    if t.len() == 0 {
        None
    } else if t[0].0 == name {
        Some(t[0].1)
    } else {
        st_lookup(t.drop_first(), name)
    }
}

/// Whether a name is bound in the table.
pub open spec fn st_contains(t: Seq<(Seq<char>, u64)>, name: Seq<char>) -> bool {
    st_lookup(t, name) is Some
}

/// The table every program starts from: `._zero` at the base offset.
pub open spec fn init_tab() -> Seq<(Seq<char>, u64)> {
    seq![("._zero"@, PROG_OFFSET)]
}

/// What an executable symbol table means.
pub open spec fn tab_view(t: Seq<(String, u64)>) -> Seq<(Seq<char>, u64)> {
    Seq::new(t.len(), |i: int| (t[i].0@, t[i].1))
}

/// Pass 1 from node `i`: sizes accumulate, labels bind to the running size
/// plus the base offset, and the first error aborts.
pub open spec fn spec_pass1(
    nodes: Seq<AstNode>,
    i: nat,
    size: u64,
    tab: Seq<(Seq<char>, u64)>,
) -> Result<(u64, Seq<(Seq<char>, u64)>), GErr>
    decreases nodes.len() - i,
{
    if i >= nodes.len() {
        Ok((size, tab))
    } else {
        match nodes[i as int] {
            AstNode::Cmd(name, args) => match size_of_cmd(name@, args@) {
                Err(g) => Err(g),
                Ok(sz) => if size + sz > MAX_PROG_SIZE {
                    Err(GErr::ProgramTooLarge)
                } else {
                    spec_pass1(nodes, (i + 1) as nat, (size + sz) as u64, tab)
                },
            },
            AstNode::Label(nm) => if st_contains(tab, nm@) {
                Err(GErr::DuplicateLabel(nm@))
            } else {
                spec_pass1(
                    nodes,
                    (i + 1) as nat,
                    size,
                    tab.push((nm@, (PROG_OFFSET + size) as u64)),
                )
            },
            _ => spec_pass1(nodes, (i + 1) as nat, size, tab),
        }
    }
}

/// A destination or source operand as an address: a literal directly, a
/// label through the table.
pub open spec fn resolve_val(v: Value, tab: Seq<(Seq<char>, u64)>) -> Result<u64, GErr> {
    match v {
        Value::Addr(a) => Ok(a),
        Value::Label(nm) => match st_lookup(tab, nm@) {
            Some(a) => Ok(a),
            None => Err(GErr::UndefinedLabel(nm@)),
        },
        _ => Err(GErr::UnsupportedOperand(Seq::empty(), crate::ast::value_view(v))),
    }
}

/// The numeric value of an immediate literal, as the 64 bits that get
/// truncated or zero-extended to the instruction's width.
pub open spec fn num_val(v: Value) -> u64 {
    match v {
        Value::Int(x) => x as u64,
        Value::Uint(x) => x,
        _ => 0,
    }
}

/// The width-class byte offset within a family: 0 for the 1-byte class, 2
/// for the 8-byte class.
pub open spec fn spec_width_off(w: Width) -> u8 {
    match w {
        Width::W1 => 0,
        Width::W8 => 2,
    }
}

/// An immediate encoded at a width: the literal's low byte, or all 8 bytes
/// little-endian.
pub open spec fn imm_bytes(w: Width, n: u64) -> Seq<u8> {
    match w {
        Width::W1 => seq![n as u8],
        Width::W8 => spec_u64_to_le_bytes(n),
    }
}

/// The encoding of one command under a finished symbol table: the opcode
/// variant picked by the operands' kinds, then the operand bytes, each
/// address as 8 bytes little-endian.
pub open spec fn encode_cmd(name: Seq<char>, args: Seq<Value>, tab: Seq<(Seq<char>, u64)>) -> Result<
    Seq<u8>,
    GErr,
> {
    match cmd_of_name(name) {
        None => Err(GErr::UnknownMnemonic(name)),
        Some(c) => match spec_cmd_kind(c) {
            CmdKind::Plain(op) => if args.len() != 0 {
                Err(GErr::WrongArgCount(name, 0, args.len() as u64))
            } else {
                Ok(seq![spec_op_byte(op)])
            },
            CmdKind::IntOp(w) => if args.len() != 2 {
                Err(GErr::WrongArgCount(name, 2, args.len() as u64))
            } else if !addr_like(args[0]) {
                Err(GErr::UnsupportedOperand(name, crate::ast::value_view(args[0])))
            } else {
                match resolve_val(args[0], tab) {
                    Err(g) => Err(g),
                    Ok(dst) => if addr_like(args[1]) {
                        match resolve_val(args[1], tab) {
                            Err(g) => Err(g),
                            Ok(src) => Ok(
                                seq![
                                    ((spec_op_byte(spec_base_op(c)) + spec_width_off(w)
                                        + 1) as u8),
                                ] + spec_u64_to_le_bytes(dst) + spec_u64_to_le_bytes(src),
                            ),
                        }
                    } else if numeric(args[1]) {
                        Ok(
                            seq![((spec_op_byte(spec_base_op(c)) + spec_width_off(w)) as u8)]
                                + spec_u64_to_le_bytes(dst) + imm_bytes(w, num_val(args[1])),
                        )
                    } else {
                        Err(GErr::UnsupportedOperand(name, crate::ast::value_view(args[1])))
                    },
                }
            },
            CmdKind::FloatOp(op) => if args.len() != 2 {
                Err(GErr::WrongArgCount(name, 2, args.len() as u64))
            } else if !addr_like(args[0]) {
                Err(GErr::UnsupportedOperand(name, crate::ast::value_view(args[0])))
            } else if !addr_like(args[1]) {
                Err(GErr::UnsupportedOperand(name, crate::ast::value_view(args[1])))
            } else {
                match resolve_val(args[0], tab) {
                    Err(g) => Err(g),
                    Ok(dst) => match resolve_val(args[1], tab) {
                        Err(g) => Err(g),
                        Ok(src) => Ok(
                            seq![spec_op_byte(op)] + spec_u64_to_le_bytes(dst)
                                + spec_u64_to_le_bytes(src),
                        ),
                    },
                }
            },
            CmdKind::CpaOp(w) => if args.len() != 2 {
                Err(GErr::WrongArgCount(name, 2, args.len() as u64))
            } else if !addr_like(args[0]) {
                Err(GErr::UnsupportedOperand(name, crate::ast::value_view(args[0])))
            } else if !addr_like(args[1]) {
                Err(GErr::UnsupportedOperand(name, crate::ast::value_view(args[1])))
            } else {
                match resolve_val(args[0], tab) {
                    Err(g) => Err(g),
                    Ok(dst) => match resolve_val(args[1], tab) {
                        Err(g) => Err(g),
                        Ok(src) => Ok(
                            seq![
                                ((spec_op_byte(spec_base_op(c)) + spec_width_off(w) + 1) as u8),
                            ] + spec_u64_to_le_bytes(dst) + spec_u64_to_le_bytes(src),
                        ),
                    },
                }
            },
            CmdKind::JmpLike(op) => if args.len() != 1 {
                Err(GErr::WrongArgCount(name, 1, args.len() as u64))
            } else if !addr_like(args[0]) {
                Err(GErr::UnsupportedOperand(name, crate::ast::value_view(args[0])))
            } else {
                match resolve_val(args[0], tab) {
                    Err(g) => Err(g),
                    Ok(a) => Ok(seq![spec_op_byte(op)] + spec_u64_to_le_bytes(a)),
                }
            },
            CmdKind::JitOp => if args.len() != 2 {
                Err(GErr::WrongArgCount(name, 2, args.len() as u64))
            } else if !addr_like(args[0]) {
                Err(GErr::UnsupportedOperand(name, crate::ast::value_view(args[0])))
            } else if !addr_like(args[1]) {
                Err(GErr::UnsupportedOperand(name, crate::ast::value_view(args[1])))
            } else {
                match resolve_val(args[0], tab) {
                    Err(g) => Err(g),
                    Ok(target) => match resolve_val(args[1], tab) {
                        Err(g) => Err(g),
                        Ok(test) => Ok(
                            seq![spec_op_byte(Op::JIT)] + spec_u64_to_le_bytes(target)
                                + spec_u64_to_le_bytes(test),
                        ),
                    },
                }
            },
        },
    }
}

/// Pass 2 from node `i`: the encodings of the commands append in order.
pub open spec fn spec_pass2(
    nodes: Seq<AstNode>,
    i: nat,
    tab: Seq<(Seq<char>, u64)>,
    acc: Seq<u8>,
) -> Result<Seq<u8>, GErr>
    decreases nodes.len() - i,
{
    if i >= nodes.len() {
        Ok(acc)
    } else {
        match nodes[i as int] {
            AstNode::Cmd(name, args) => match encode_cmd(name@, args@, tab) {
                Err(g) => Err(g),
                Ok(bs) => spec_pass2(nodes, (i + 1) as nat, tab, acc + bs),
            },
            _ => spec_pass2(nodes, (i + 1) as nat, tab, acc),
        }
    }
}

/// The whole assembly of a node list: pass 1 for sizes and labels, pass 2
/// for the bytes, atomically.
pub open spec fn spec_compile(nodes: Seq<AstNode>) -> Result<Seq<u8>, GErr> {
    match spec_pass1(nodes, 0, 1, init_tab()) {
        Err(g) => Err(g),
        Ok((_, tab)) => spec_pass2(nodes, 0, tab, seq![0u8]),
    }
}

/// The width-class offset of a family mnemonic.
pub open spec fn spec_base_off(c: AsmCmd) -> u8 {
    match spec_cmd_kind(c) {
        CmdKind::IntOp(w) => spec_width_off(w),
        CmdKind::CpaOp(w) => spec_width_off(w),
        _ => 0,
    }
}

/// ASCII lowercasing of one character.
fn lower_char_exec(c: char) -> (r: char)
    ensures
        r == lower_char(c),
{
    match c {
        'A' => 'a',
        'B' => 'b',
        'C' => 'c',
        'D' => 'd',
        'E' => 'e',
        'F' => 'f',
        'G' => 'g',
        'H' => 'h',
        'I' => 'i',
        'J' => 'j',
        'K' => 'k',
        'L' => 'l',
        'M' => 'm',
        'N' => 'n',
        'O' => 'o',
        'P' => 'p',
        'Q' => 'q',
        'R' => 'r',
        'S' => 's',
        'T' => 't',
        'U' => 'u',
        'V' => 'v',
        'W' => 'w',
        'X' => 'x',
        'Y' => 'y',
        'Z' => 'z',
        _ => c,
    }
}

/// Case-insensitive comparison of a name against a lowercase mnemonic.
fn eq_lower(s: &str, lit: &str) -> (b: bool)
    ensures
        b == (lower(s@) == lit@),
{
    let n = s.unicode_len();
    let m = lit.unicode_len();
    if n != m {
        proof {
            if lower(s@) == lit@ {
                assert(lower(s@).len() == lit@.len());
            }
        }
        return false;
    }
    let mut i: usize = 0;
    while i < n
        invariant
            i <= n,
            n == s@.len(),
            n == lit@.len(),
            forall|q: int| 0 <= q < i ==> lower_char(s@[q]) == lit@[q],
        decreases n - i,
    {
        let c = s.get_char(i);
        let lc = lower_char_exec(c);
        let d = lit.get_char(i);
        if lc != d {
            proof {
                if lower(s@) == lit@ {
                    assert(lower(s@)[i as int] == lit@[i as int]);
                }
            }
            return false;
        }
        i = i + 1;
    }
    proof {
        assert(lower(s@) =~= lit@);
    }
    true
}

/// Whether a value can stand for an address.
fn is_addr_like(v: &Value) -> (b: bool)
    ensures
        b == addr_like(*v),
{
    match v {
        Value::Label(_) => true,
        Value::Addr(_) => true,
        _ => false,
    }
}

/// Whether a value is a numeric literal.
fn is_numeric(v: &Value) -> (b: bool)
    ensures
        b == numeric(*v),
{
    match v {
        Value::Int(_) => true,
        Value::Uint(_) => true,
        _ => false,
    }
}

/// An owned copy of a value.
fn dup_value(v: &Value) -> (r: Value)
    ensures
        r == *v,
{
    match v {
        Value::Label(s) => Value::Label(s.clone()),
        Value::Addr(a) => Value::Addr(*a),
        Value::Int(n) => Value::Int(*n),
        Value::Uint(n) => Value::Uint(*n),
        Value::Str(s) => Value::Str(s.clone()),
    }
}

/// Look a label up in the symbol table, front to back.
fn st_get(tab: &Vec<(String, u64)>, name: &String) -> (r: Option<u64>)
    ensures
        r == st_lookup(tab_view(tab@), name@),
{
    let n = tab.len();
    let mut i: usize = 0;
    proof {
        assert(tab_view(tab@).skip(0) =~= tab_view(tab@));
    }
    while i < n
        invariant
            i <= n,
            n == tab.len(),
            st_lookup(tab_view(tab@), name@) == st_lookup(
                tab_view(tab@).skip(i as int),
                name@,
            ),
        decreases n - i,
    {
        let p = &tab[i];
        if p.0 == *name {
            proof {
                assert(tab_view(tab@).skip(i as int)[0] == (tab@[i as int].0@, tab@[i as int].1));
            }
            return Some(p.1);
        }
        proof {
            assert(tab_view(tab@).skip(i as int)[0] == (tab@[i as int].0@, tab@[i as int].1));
            assert(tab_view(tab@).skip(i as int).drop_first() =~= tab_view(tab@).skip(
                i + 1 as int,
            ));
        }
        i = i + 1;
    }
    proof {
        assert(tab_view(tab@).skip(n as int).len() == 0);
    }
    None
}

/// Resolve one address-like operand through the symbol table.
fn resolve_arg(v: &Value, labels: &Vec<(String, u64)>) -> (r: Result<u64, CompileError>)
    ensures
        ({
            let sp = resolve_val(*v, tab_view(labels@));
            match r {
                Ok(a) => sp == Ok::<u64, GErr>(a),
                Err(e) => sp == Err::<u64, GErr>(err_view(e)),
            }
        }),
{
    match v {
        Value::Addr(a) => Ok(*a),
        Value::Label(nm) => match st_get(labels, nm) {
            Some(a) => Ok(a),
            None => Err(CompileError::UndefinedLabel(nm.clone())),
        },
        _ => Err(CompileError::UnsupportedOperand(String::new(), dup_value(v))),
    }
}

/// Append an address or 8-byte word to the output, little-endian.
fn push_le8(out: &mut Vec<u8>, x: u64)
    ensures
        final(out)@ == old(out)@ + spec_u64_to_le_bytes(x),
{
    let mut b = u64_to_le_bytes(x);
    out.append(&mut b);
}

impl AsmCmd {
    /// The mnemonic a name denotes, case-insensitively; `None` for an
    /// unknown mnemonic.
    pub fn from_string(s: &str) -> (r: Option<AsmCmd>)
        ensures
            r == cmd_of_name(s@),
    {
        if eq_lower(s, "nop") {
            Some(AsmCmd::NOP)
        } else if eq_lower(s, "xit") {
            Some(AsmCmd::XIT)
        } else if eq_lower(s, "addb") {
            Some(AsmCmd::ADDB)
        } else if eq_lower(s, "subb") {
            Some(AsmCmd::SUBB)
        } else if eq_lower(s, "mulb") {
            Some(AsmCmd::MULB)
        } else if eq_lower(s, "divb") {
            Some(AsmCmd::DIVB)
        } else if eq_lower(s, "modb") {
            Some(AsmCmd::MODB)
        } else if eq_lower(s, "shrb") {
            Some(AsmCmd::SHRB)
        } else if eq_lower(s, "shlb") {
            Some(AsmCmd::SHLB)
        } else if eq_lower(s, "andb") {
            Some(AsmCmd::ANDB)
        } else if eq_lower(s, "orrb") {
            Some(AsmCmd::ORRB)
        } else if eq_lower(s, "xorb") {
            Some(AsmCmd::XORB)
        } else if eq_lower(s, "addw") {
            Some(AsmCmd::ADDW)
        } else if eq_lower(s, "subw") {
            Some(AsmCmd::SUBW)
        } else if eq_lower(s, "mulw") {
            Some(AsmCmd::MULW)
        } else if eq_lower(s, "divw") {
            Some(AsmCmd::DIVW)
        } else if eq_lower(s, "modw") {
            Some(AsmCmd::MODW)
        } else if eq_lower(s, "shrw") {
            Some(AsmCmd::SHRW)
        } else if eq_lower(s, "shlw") {
            Some(AsmCmd::SHLW)
        } else if eq_lower(s, "andw") {
            Some(AsmCmd::ANDW)
        } else if eq_lower(s, "orrw") {
            Some(AsmCmd::ORRW)
        } else if eq_lower(s, "xorw") {
            Some(AsmCmd::XORW)
        } else if eq_lower(s, "addf") {
            Some(AsmCmd::ADDF)
        } else if eq_lower(s, "subf") {
            Some(AsmCmd::SUBF)
        } else if eq_lower(s, "mulf") {
            Some(AsmCmd::MULF)
        } else if eq_lower(s, "divf") {
            Some(AsmCmd::DIVF)
        } else if eq_lower(s, "cpyb") {
            Some(AsmCmd::CPYB)
        } else if eq_lower(s, "cpyw") {
            Some(AsmCmd::CPYW)
        } else if eq_lower(s, "cpab") {
            Some(AsmCmd::CPAB)
        } else if eq_lower(s, "cpaw") {
            Some(AsmCmd::CPAW)
        } else if eq_lower(s, "jmp") {
            Some(AsmCmd::JMP)
        } else if eq_lower(s, "jit") {
            Some(AsmCmd::JIT)
        } else if eq_lower(s, "cal") {
            Some(AsmCmd::CAL)
        } else if eq_lower(s, "ret") {
            Some(AsmCmd::RET)
        } else if eq_lower(s, "alp") {
            Some(AsmCmd::ALP)
        } else if eq_lower(s, "frp") {
            Some(AsmCmd::FRP)
        } else {
            None
        }
    }

    /// The operand layout of this mnemonic.
    pub fn kind(self) -> (k: CmdKind)
        ensures
            k == spec_cmd_kind(self),
    {
        match self {
            AsmCmd::NOP => CmdKind::Plain(Op::NOP),
            AsmCmd::XIT => CmdKind::Plain(Op::XIT),
            AsmCmd::RET => CmdKind::Plain(Op::RET),
            AsmCmd::ADDB | AsmCmd::SUBB | AsmCmd::MULB | AsmCmd::DIVB | AsmCmd::MODB
                | AsmCmd::SHRB | AsmCmd::SHLB | AsmCmd::ANDB | AsmCmd::ORRB | AsmCmd::XORB
                | AsmCmd::CPYB => CmdKind::IntOp(Width::W1),
            AsmCmd::ADDW | AsmCmd::SUBW | AsmCmd::MULW | AsmCmd::DIVW | AsmCmd::MODW
                | AsmCmd::SHRW | AsmCmd::SHLW | AsmCmd::ANDW | AsmCmd::ORRW | AsmCmd::XORW
                | AsmCmd::CPYW => CmdKind::IntOp(Width::W8),
            AsmCmd::ADDF => CmdKind::FloatOp(Op::ADDF),
            AsmCmd::SUBF => CmdKind::FloatOp(Op::SUBF),
            AsmCmd::MULF => CmdKind::FloatOp(Op::MULF),
            AsmCmd::DIVF => CmdKind::FloatOp(Op::DIVF),
            AsmCmd::CPAB => CmdKind::CpaOp(Width::W1),
            AsmCmd::CPAW => CmdKind::CpaOp(Width::W8),
            AsmCmd::JMP => CmdKind::JmpLike(Op::JMP),
            AsmCmd::CAL => CmdKind::JmpLike(Op::CAL),
            AsmCmd::ALP => CmdKind::JmpLike(Op::ALP),
            AsmCmd::FRP => CmdKind::JmpLike(Op::FRP),
            AsmCmd::JIT => CmdKind::JitOp,
        }
    }

    /// The base opcode byte of this mnemonic's family: the 1-byte-class
    /// immediate variant, from which the width offset and the pointer flag
    /// select the concrete opcode.
    pub fn base_op_code(&self) -> (b: u8)
        requires
            spec_has_base(*self),
        ensures
            b == spec_op_byte(spec_base_op(*self)),
            b <= 50,
    {
        let base = match *self {
            AsmCmd::ADDB | AsmCmd::ADDW => Op::ADD1,
            AsmCmd::SUBB | AsmCmd::SUBW => Op::SUB1,
            AsmCmd::MULB | AsmCmd::MULW => Op::MUL1,
            AsmCmd::DIVB | AsmCmd::DIVW => Op::DIV1,
            AsmCmd::MODB | AsmCmd::MODW => Op::MOD1,
            AsmCmd::SHRB | AsmCmd::SHRW => Op::SHR1,
            AsmCmd::SHLB | AsmCmd::SHLW => Op::SHL1,
            AsmCmd::ANDB | AsmCmd::ANDW => Op::AND1,
            AsmCmd::ORRB | AsmCmd::ORRW => Op::ORR1,
            AsmCmd::XORB | AsmCmd::XORW => Op::XOR1,
            AsmCmd::CPYB | AsmCmd::CPYW => Op::CPY1,
            _ => Op::CPA1,
        };
        base.to_byte()
    }

    /// The offset the operand width adds to the base opcode byte: 0 for
    /// the 1-byte class, 2 for the 8-byte class.
    pub fn base_op_offset(&self) -> (b: u8)
        requires
            spec_has_base(*self),
        ensures
            b == spec_base_off(*self),
            b <= 2,
    {
        match *self {
            AsmCmd::ADDB | AsmCmd::SUBB | AsmCmd::MULB | AsmCmd::DIVB | AsmCmd::MODB
                | AsmCmd::SHRB | AsmCmd::SHLB | AsmCmd::ANDB | AsmCmd::ORRB | AsmCmd::XORB
                | AsmCmd::CPYB | AsmCmd::CPAB => 0,
            _ => 2,
        }
    }

    /// Pass 1's view of one command: its encoded size, computed
    /// analytically from the mnemonic and the operand kinds.
    pub fn size_from_string(cmd: &str, args: &Vec<Value>) -> (r: Result<u64, CompileError>)
        ensures
            ({
                let sp = size_of_cmd(cmd@, args@);
                match r {
                    Ok(sz) => sp == Ok::<nat, GErr>(sz as nat),
                    Err(e) => sp == Err::<nat, GErr>(err_view(e)),
                }
            }),
    {
        let c = match AsmCmd::from_string(cmd) {
            Some(c) => c,
            None => {
                return Err(CompileError::UnknownMnemonic(String::from_str(cmd)));
            },
        };
        match c.kind() {
            CmdKind::Plain(_) => {
                if args.len() != 0 {
                    return Err(
                        CompileError::WrongArgCount(String::from_str(cmd), 0, args.len() as u64),
                    );
                }
                Ok(1)
            },
            CmdKind::IntOp(w) => {
                if args.len() != 2 {
                    return Err(
                        CompileError::WrongArgCount(String::from_str(cmd), 2, args.len() as u64),
                    );
                }
                if !is_addr_like(&args[0]) {
                    return Err(
                        CompileError::UnsupportedOperand(
                            String::from_str(cmd),
                            dup_value(&args[0]),
                        ),
                    );
                }
                if is_addr_like(&args[1]) {
                    Ok(17)
                } else if is_numeric(&args[1]) {
                    Ok(9 + w.bytes())
                } else {
                    Err(
                        CompileError::UnsupportedOperand(
                            String::from_str(cmd),
                            dup_value(&args[1]),
                        ),
                    )
                }
            },
            CmdKind::FloatOp(_) | CmdKind::CpaOp(_) => {
                if args.len() != 2 {
                    return Err(
                        CompileError::WrongArgCount(String::from_str(cmd), 2, args.len() as u64),
                    );
                }
                if !is_addr_like(&args[0]) {
                    return Err(
                        CompileError::UnsupportedOperand(
                            String::from_str(cmd),
                            dup_value(&args[0]),
                        ),
                    );
                }
                if !is_addr_like(&args[1]) {
                    return Err(
                        CompileError::UnsupportedOperand(
                            String::from_str(cmd),
                            dup_value(&args[1]),
                        ),
                    );
                }
                Ok(17)
            },
            CmdKind::JmpLike(_) => {
                if args.len() != 1 {
                    return Err(
                        CompileError::WrongArgCount(String::from_str(cmd), 1, args.len() as u64),
                    );
                }
                if !is_addr_like(&args[0]) {
                    return Err(
                        CompileError::UnsupportedOperand(
                            String::from_str(cmd),
                            dup_value(&args[0]),
                        ),
                    );
                }
                Ok(9)
            },
            CmdKind::JitOp => {
                if args.len() != 2 {
                    return Err(
                        CompileError::WrongArgCount(String::from_str(cmd), 2, args.len() as u64),
                    );
                }
                if !is_addr_like(&args[0]) {
                    return Err(
                        CompileError::UnsupportedOperand(
                            String::from_str(cmd),
                            dup_value(&args[0]),
                        ),
                    );
                }
                if !is_addr_like(&args[1]) {
                    return Err(
                        CompileError::UnsupportedOperand(
                            String::from_str(cmd),
                            dup_value(&args[1]),
                        ),
                    );
                }
                Ok(17)
            },
        }
    }

    /// Pass 2's view of one command: pick the opcode variant from the
    /// operand kinds, resolve labels through the symbol table, and emit the
    /// opcode byte followed by the operand bytes.
    #[verifier::spinoff_prover]
    #[verifier::rlimit(40)]
    pub fn compile(&self, cmd: &str, args: &Vec<Value>, labels: &Vec<(String, u64)>) -> (r: Result<
        Vec<u8>,
        CompileError,
    >)
        requires
            cmd_of_name(cmd@) == Some(*self),
        ensures
            ({
                let sp = encode_cmd(cmd@, args@, tab_view(labels@));
                match r {
                    Ok(v) => sp == Ok::<Seq<u8>, GErr>(v@),
                    Err(e) => sp == Err::<Seq<u8>, GErr>(err_view(e)),
                }
            }),
    {
        match self.kind() {
            CmdKind::Plain(op) => {
                if args.len() != 0 {
                    return Err(
                        CompileError::WrongArgCount(String::from_str(cmd), 0, args.len() as u64),
                    );
                }
                let mut out: Vec<u8> = Vec::new();
                out.push(op.to_byte());
                proof {
                    assert(out@ =~= seq![spec_op_byte(op)]);
                }
                Ok(out)
            },
            CmdKind::IntOp(w) => {
                if args.len() != 2 {
                    return Err(
                        CompileError::WrongArgCount(String::from_str(cmd), 2, args.len() as u64),
                    );
                }
                if !is_addr_like(&args[0]) {
                    return Err(
                        CompileError::UnsupportedOperand(
                            String::from_str(cmd),
                            dup_value(&args[0]),
                        ),
                    );
                }
                let dst = match resolve_arg(&args[0], labels) {
                    Ok(a) => a,
                    Err(e) => {
                        return Err(e);
                    },
                };
                if is_addr_like(&args[1]) {
                    let src = match resolve_arg(&args[1], labels) {
                        Ok(a) => a,
                        Err(e) => {
                            return Err(e);
                        },
                    };
                    let mut out: Vec<u8> = Vec::new();
                    out.push(self.base_op_code() + self.base_op_offset() + 1);
                    push_le8(&mut out, dst);
                    push_le8(&mut out, src);
                    proof {
                        assert(out@ =~= seq![
                            ((spec_op_byte(spec_base_op(*self)) + spec_width_off(w) + 1) as u8),
                        ] + spec_u64_to_le_bytes(dst) + spec_u64_to_le_bytes(src));
                    }
                    Ok(out)
                } else if is_numeric(&args[1]) {
                    let n: u64 = match &args[1] {
                        Value::Int(x) => #[verifier::truncate] (*x as u64),
                        Value::Uint(x) => *x,
                        _ => 0,
                    };
                    let mut out: Vec<u8> = Vec::new();
                    out.push(self.base_op_code() + self.base_op_offset());
                    push_le8(&mut out, dst);
                    match w {
                        Width::W1 => {
                            out.push(#[verifier::truncate] (n as u8));
                        },
                        Width::W8 => {
                            push_le8(&mut out, n);
                        },
                    }
                    proof {
                        assert(n == num_val(args@[1]));
                        assert(out@ =~= seq![
                            ((spec_op_byte(spec_base_op(*self)) + spec_width_off(w)) as u8),
                        ] + spec_u64_to_le_bytes(dst) + imm_bytes(w, num_val(args@[1])));
                    }
                    Ok(out)
                } else {
                    Err(
                        CompileError::UnsupportedOperand(
                            String::from_str(cmd),
                            dup_value(&args[1]),
                        ),
                    )
                }
            },
            CmdKind::FloatOp(op) => {
                if args.len() != 2 {
                    return Err(
                        CompileError::WrongArgCount(String::from_str(cmd), 2, args.len() as u64),
                    );
                }
                if !is_addr_like(&args[0]) {
                    return Err(
                        CompileError::UnsupportedOperand(
                            String::from_str(cmd),
                            dup_value(&args[0]),
                        ),
                    );
                }
                if !is_addr_like(&args[1]) {
                    return Err(
                        CompileError::UnsupportedOperand(
                            String::from_str(cmd),
                            dup_value(&args[1]),
                        ),
                    );
                }
                let dst = match resolve_arg(&args[0], labels) {
                    Ok(a) => a,
                    Err(e) => {
                        return Err(e);
                    },
                };
                let src = match resolve_arg(&args[1], labels) {
                    Ok(a) => a,
                    Err(e) => {
                        return Err(e);
                    },
                };
                let mut out: Vec<u8> = Vec::new();
                out.push(op.to_byte());
                push_le8(&mut out, dst);
                push_le8(&mut out, src);
                proof {
                    assert(out@ =~= seq![spec_op_byte(op)] + spec_u64_to_le_bytes(dst)
                        + spec_u64_to_le_bytes(src));
                }
                Ok(out)
            },
            CmdKind::CpaOp(w) => {
                if args.len() != 2 {
                    return Err(
                        CompileError::WrongArgCount(String::from_str(cmd), 2, args.len() as u64),
                    );
                }
                if !is_addr_like(&args[0]) {
                    return Err(
                        CompileError::UnsupportedOperand(
                            String::from_str(cmd),
                            dup_value(&args[0]),
                        ),
                    );
                }
                if !is_addr_like(&args[1]) {
                    return Err(
                        CompileError::UnsupportedOperand(
                            String::from_str(cmd),
                            dup_value(&args[1]),
                        ),
                    );
                }
                let dst = match resolve_arg(&args[0], labels) {
                    Ok(a) => a,
                    Err(e) => {
                        return Err(e);
                    },
                };
                let src = match resolve_arg(&args[1], labels) {
                    Ok(a) => a,
                    Err(e) => {
                        return Err(e);
                    },
                };
                let mut out: Vec<u8> = Vec::new();
                out.push(self.base_op_code() + self.base_op_offset() + 1);
                push_le8(&mut out, dst);
                push_le8(&mut out, src);
                proof {
                    assert(out@ =~= seq![
                        ((spec_op_byte(spec_base_op(*self)) + spec_width_off(w) + 1) as u8),
                    ] + spec_u64_to_le_bytes(dst) + spec_u64_to_le_bytes(src));
                }
                Ok(out)
            },
            CmdKind::JmpLike(op) => {
                if args.len() != 1 {
                    return Err(
                        CompileError::WrongArgCount(String::from_str(cmd), 1, args.len() as u64),
                    );
                }
                if !is_addr_like(&args[0]) {
                    return Err(
                        CompileError::UnsupportedOperand(
                            String::from_str(cmd),
                            dup_value(&args[0]),
                        ),
                    );
                }
                let a = match resolve_arg(&args[0], labels) {
                    Ok(a) => a,
                    Err(e) => {
                        return Err(e);
                    },
                };
                let mut out: Vec<u8> = Vec::new();
                out.push(op.to_byte());
                push_le8(&mut out, a);
                proof {
                    assert(out@ =~= seq![spec_op_byte(op)] + spec_u64_to_le_bytes(a));
                }
                Ok(out)
            },
            CmdKind::JitOp => {
                if args.len() != 2 {
                    return Err(
                        CompileError::WrongArgCount(String::from_str(cmd), 2, args.len() as u64),
                    );
                }
                if !is_addr_like(&args[0]) {
                    return Err(
                        CompileError::UnsupportedOperand(
                            String::from_str(cmd),
                            dup_value(&args[0]),
                        ),
                    );
                }
                if !is_addr_like(&args[1]) {
                    return Err(
                        CompileError::UnsupportedOperand(
                            String::from_str(cmd),
                            dup_value(&args[1]),
                        ),
                    );
                }
                let target = match resolve_arg(&args[0], labels) {
                    Ok(a) => a,
                    Err(e) => {
                        return Err(e);
                    },
                };
                let test = match resolve_arg(&args[1], labels) {
                    Ok(a) => a,
                    Err(e) => {
                        return Err(e);
                    },
                };
                let mut out: Vec<u8> = Vec::new();
                out.push(Op::JIT.to_byte());
                push_le8(&mut out, target);
                push_le8(&mut out, test);
                proof {
                    assert(out@ =~= seq![spec_op_byte(Op::JIT)] + spec_u64_to_le_bytes(target)
                        + spec_u64_to_le_bytes(test));
                }
                Ok(out)
            },
        }
    }
}

/// Assemble a parsed program into its final byte buffer: the reserved
/// leading byte, then every command's encoding in program order. Exactly
/// the spec-level two-pass result; any error aborts with no output.
pub fn compile(root: &AstNode) -> (r: Result<Vec<u8>, CompileError>)
    requires
        root matches AstNode::Tree(_, _),
    ensures
        ({
            match root {
                AstNode::Tree(_, ns) => {
                    let sp = spec_compile(ns@);
                    match r {
                        Ok(v) => sp == Ok::<Seq<u8>, GErr>(v@),
                        Err(e) => sp == Err::<Seq<u8>, GErr>(err_view(e)),
                    }
                },
                _ => false,
            }
        }),
{
    let nodes: &Vec<AstNode> = match root {
        AstNode::Tree(_, ns) => ns,
        _ => {
            // Unreachable: the precondition pins the root to a tree.
            proof {
                assert(false);
            }
            return Err(CompileError::ProgramTooLarge);
        },
    };
    let mut labels: Vec<(String, u64)> = Vec::new();
    labels.push((String::from_str("._zero"), PROG_OFFSET));
    proof {
        assert(tab_view(labels@) =~= init_tab());
    }
    let mut size: u64 = 1;
    let mut i: usize = 0;
    while i < nodes.len()
        invariant
            i <= nodes.len(),
            size <= MAX_PROG_SIZE,
            (match root {
                AstNode::Tree(_, v) => v@ == nodes@,
                _ => false,
            }),
            spec_pass1(nodes@, 0, 1, init_tab()) == spec_pass1(
                nodes@,
                i as nat,
                size,
                tab_view(labels@),
            ),
        decreases nodes.len() - i,
    {
        match &nodes[i] {
            AstNode::Cmd(name, args) => {
                proof {
                    assert(nodes@[i as int] matches AstNode::Cmd(n2, a2) && n2@ == name@ && a2@
                        == args@);
                }
                let sz = match AsmCmd::size_from_string(name.as_str(), args) {
                    Ok(sz) => sz,
                    Err(e) => {
                        proof {
                            reveal_with_fuel(spec_pass1, 2);
                            assert(spec_pass1(nodes@, i as nat, size, tab_view(labels@))
                                == Err::<(u64, Seq<(Seq<char>, u64)>), GErr>(err_view(e)));
                        }
                        return Err(e);
                    },
                };
                if sz > MAX_PROG_SIZE - size {
                    proof {
                        reveal_with_fuel(spec_pass1, 2);
                    }
                    return Err(CompileError::ProgramTooLarge);
                }
                size = size + sz;
            },
            AstNode::Label(nm) => {
                proof {
                    assert(nodes@[i as int] matches AstNode::Label(n2) && n2@ == nm@);
                }
                match st_get(&labels, nm) {
                    Some(_) => {
                        proof {
                            reveal_with_fuel(spec_pass1, 2);
                        }
                        return Err(CompileError::DuplicateLabel(nm.clone()));
                    },
                    None => {},
                }
                let ghost tab0 = tab_view(labels@);
                labels.push((nm.clone(), PROG_OFFSET + size));
                proof {
                    assert(tab_view(labels@) =~= tab0.push((nm@, (PROG_OFFSET + size) as u64)));
                }
            },
            _ => {},
        }
        i = i + 1;
    }
    proof {
        assert(spec_pass1(nodes@, 0, 1, init_tab()) == Ok::<(u64, Seq<(Seq<char>, u64)>), GErr>(
            (size, tab_view(labels@)),
        ));
    }
    let mut out: Vec<u8> = Vec::new();
    out.push(0u8);
    proof {
        assert(out@ =~= seq![0u8]);
    }
    let ghost tabf = tab_view(labels@);
    let ghost sizef = size;
    let mut k: usize = 0;
    while k < nodes.len()
        invariant
            k <= nodes.len(),
            tabf == tab_view(labels@),
            (match root {
                AstNode::Tree(_, v) => v@ == nodes@,
                _ => false,
            }),
            spec_pass1(nodes@, 0, 1, init_tab()) == Ok::<(u64, Seq<(Seq<char>, u64)>), GErr>(
                (sizef, tabf),
            ),
            spec_pass2(nodes@, 0, tabf, seq![0u8]) == spec_pass2(nodes@, k as nat, tabf, out@),
        decreases nodes.len() - k,
    {
        match &nodes[k] {
            AstNode::Cmd(name, args) => {
                proof {
                    assert(nodes@[k as int] matches AstNode::Cmd(n2, a2) && n2@ == name@ && a2@
                        == args@);
                }
                let c = match AsmCmd::from_string(name.as_str()) {
                    Some(c) => c,
                    None => {
                        proof {
                            reveal_with_fuel(spec_pass2, 2);
                        }
                        return Err(CompileError::UnknownMnemonic(name.clone()));
                    },
                };
                let mut bs = match c.compile(name.as_str(), args, &labels) {
                    Ok(bs) => bs,
                    Err(e) => {
                        proof {
                            reveal_with_fuel(spec_pass2, 2);
                        }
                        return Err(e);
                    },
                };
                out.append(&mut bs);
            },
            _ => {},
        }
        k = k + 1;
    }
    Ok(out)
}

/// The sum of the analytically computed sizes of the commands in
/// `nodes[i..j]` (other nodes contribute nothing). Meaningful when every
/// command in the range sizes successfully.
pub open spec fn sizes_sum_range(nodes: Seq<AstNode>, i: nat, j: nat) -> nat
    decreases j - i,
{
    if i >= j {
        0
    } else {
        let here: nat = match nodes[i as int] {
            AstNode::Cmd(name, args) => match size_of_cmd(name@, args@) {
                Ok(sz) => sz,
                Err(_) => 0,
            },
            _ => 0,
        };
        (here + sizes_sum_range(nodes, (i + 1) as nat, j)) as nat
    }
}

/// The name a label node declares.
pub open spec fn label_name(n: AstNode) -> Seq<char> {
    match n {
        AstNode::Label(nm) => nm@,
        _ => Seq::empty(),
    }
}

/// The arguments of a command node.
pub open spec fn cmd_args(n: AstNode) -> Seq<Value> {
    match n {
        AstNode::Cmd(_, args) => args@,
        _ => Seq::empty(),
    }
}

/// Whether a node declares exactly this label name.
pub open spec fn is_label_named(n: AstNode, nm: Seq<char>) -> bool {
    n matches AstNode::Label(s) && s@ == nm
}

/// Looking a name up after appending a binding: an existing binding wins,
/// the new one answers for its own name, anything else stays unbound.
proof fn lemma_st_lookup_push(t: Seq<(Seq<char>, u64)>, p: (Seq<char>, u64), q: Seq<char>)
    ensures
        st_lookup(t.push(p), q) == (if st_contains(t, q) {
            st_lookup(t, q)
        } else if p.0 == q {
            Some(p.1)
        } else {
            None
        }),
    decreases t.len(),
{
    if t.len() == 0 {
        assert(t.push(p)[0] == p);
        assert(t.push(p).drop_first() =~= Seq::<(Seq<char>, u64)>::empty());
    } else {
        assert(t.push(p)[0] == t[0]);
        assert(t.push(p).drop_first() =~= t.drop_first().push(p));
        lemma_st_lookup_push(t.drop_first(), p, q);
    }
}

/// When pass 1 accepts, its final size is the starting size plus the sum
/// of the remaining commands' sizes.
proof fn lemma_pass1_size(nodes: Seq<AstNode>, i: nat, size: u64, tab: Seq<(Seq<char>, u64)>)
    requires
        spec_pass1(nodes, i, size, tab) is Ok,
    ensures
        spec_pass1(nodes, i, size, tab)->Ok_0.0 == size + sizes_sum_range(
            nodes,
            i,
            nodes.len() as nat,
        ),
    decreases nodes.len() - i,
{
    if i < nodes.len() {
        match nodes[i as int] {
            AstNode::Cmd(name, args) => {
                let sz = size_of_cmd(name@, args@)->Ok_0;
                lemma_pass1_size(nodes, (i + 1) as nat, (size + sz) as u64, tab);
            },
            AstNode::Label(nm) => {
                lemma_pass1_size(
                    nodes,
                    (i + 1) as nat,
                    size,
                    tab.push((nm@, (PROG_OFFSET + size) as u64)),
                );
            },
            _ => {
                lemma_pass1_size(nodes, (i + 1) as nat, size, tab);
            },
        }
    }
}

/// A command's encoding is exactly as long as pass 1 said it would be.
proof fn lemma_encode_len(name: Seq<char>, args: Seq<Value>, tab: Seq<(Seq<char>, u64)>)
    requires
        size_of_cmd(name, args) is Ok,
        encode_cmd(name, args, tab) is Ok,
    ensures
        encode_cmd(name, args, tab)->Ok_0.len() == size_of_cmd(name, args)->Ok_0,
{
    vstd::bytes::lemma_auto_spec_u64_to_from_le_bytes();
}

/// When both passes accept, pass 2 appends exactly the sizes pass 1
/// counted.
proof fn lemma_pass2_len(
    nodes: Seq<AstNode>,
    i: nat,
    size: u64,
    tab1: Seq<(Seq<char>, u64)>,
    tab2: Seq<(Seq<char>, u64)>,
    acc: Seq<u8>,
)
    requires
        spec_pass1(nodes, i, size, tab1) is Ok,
        spec_pass2(nodes, i, tab2, acc) is Ok,
    ensures
        spec_pass2(nodes, i, tab2, acc)->Ok_0.len() == acc.len() + sizes_sum_range(
            nodes,
            i,
            nodes.len() as nat,
        ),
    decreases nodes.len() - i,
{
    if i < nodes.len() {
        match nodes[i as int] {
            AstNode::Cmd(name, args) => {
                let sz = size_of_cmd(name@, args@)->Ok_0;
                let bs = encode_cmd(name@, args@, tab2)->Ok_0;
                lemma_encode_len(name@, args@, tab2);
                lemma_pass2_len(nodes, (i + 1) as nat, (size + sz) as u64, tab1, tab2, acc + bs);
            },
            AstNode::Label(nm) => {
                lemma_pass2_len(
                    nodes,
                    (i + 1) as nat,
                    size,
                    tab1.push((nm@, (PROG_OFFSET + size) as u64)),
                    tab2,
                    acc,
                );
            },
            _ => {
                lemma_pass2_len(nodes, (i + 1) as nat, size, tab1, tab2, acc);
            },
        }
    }
}

/// For every accepted program, the compiled buffer's length is the sum of
/// each instruction's analytically computed size plus one reserved byte —
/// the two passes agree byte for byte on layout.
pub proof fn lemma_compiled_size(nodes: Seq<AstNode>)
    requires
        spec_compile(nodes) is Ok,
    ensures
        spec_compile(nodes)->Ok_0.len() == 1 + sizes_sum_range(nodes, 0, nodes.len() as nat),
{
    let tabf = spec_pass1(nodes, 0, 1, init_tab())->Ok_0.1;
    lemma_pass1_size(nodes, 0, 1, init_tab());
    lemma_pass2_len(nodes, 0, 1, init_tab(), tabf, seq![0u8]);
}

/// A binding already present survives the rest of pass 1, as long as no
/// later node declares the same name.
proof fn lemma_pass1_keeps_lookup(
    nodes: Seq<AstNode>,
    i: nat,
    size: u64,
    tab: Seq<(Seq<char>, u64)>,
    nm: Seq<char>,
    a: u64,
)
    requires
        spec_pass1(nodes, i, size, tab) is Ok,
        st_lookup(tab, nm) == Some(a),
        forall|k: int| i <= k < nodes.len() ==> !is_label_named(#[trigger] nodes[k], nm),
    ensures
        st_lookup(spec_pass1(nodes, i, size, tab)->Ok_0.1, nm) == Some(a),
    decreases nodes.len() - i,
{
    if i < nodes.len() {
        match nodes[i as int] {
            AstNode::Cmd(name, args) => {
                let sz = size_of_cmd(name@, args@)->Ok_0;
                lemma_pass1_keeps_lookup(nodes, (i + 1) as nat, (size + sz) as u64, tab, nm, a);
            },
            AstNode::Label(nm2) => {
                let tab2 = tab.push((nm2@, (PROG_OFFSET + size) as u64));
                lemma_st_lookup_push(tab, (nm2@, (PROG_OFFSET + size) as u64), nm);
                assert(!is_label_named(nodes[i as int], nm));
                lemma_pass1_keeps_lookup(nodes, (i + 1) as nat, size, tab2, nm, a);
            },
            _ => {
                lemma_pass1_keeps_lookup(nodes, (i + 1) as nat, size, tab, nm, a);
            },
        }
    }
}

/// The working form of label resolution: from any accepted pass-1 state, a
/// label declared once later, and not yet bound, ends bound to the running
/// size at its declaration plus the base offset.
proof fn lemma_pass1_label_addr(
    nodes: Seq<AstNode>,
    i: nat,
    size: u64,
    tab: Seq<(Seq<char>, u64)>,
    j: nat,
)
    requires
        spec_pass1(nodes, i, size, tab) is Ok,
        i <= j < nodes.len(),
        nodes[j as int] matches AstNode::Label(_),
        !st_contains(tab, label_name(nodes[j as int])),
        forall|k: int|
            i <= k < nodes.len() && k != j ==> !is_label_named(
                #[trigger] nodes[k],
                label_name(nodes[j as int]),
            ),
    ensures
        st_lookup(spec_pass1(nodes, i, size, tab)->Ok_0.1, label_name(nodes[j as int])) == Some(
            ((PROG_OFFSET + size + sizes_sum_range(nodes, i, j)) as u64),
        ),
    decreases nodes.len() - i,
{
    let nm = label_name(nodes[j as int]);
    if i == j {
        match nodes[i as int] {
            AstNode::Label(nm2) => {
                let p = (nm2@, (PROG_OFFSET + size) as u64);
                let tab2 = tab.push(p);
                lemma_st_lookup_push(tab, p, nm);
                assert(st_lookup(tab2, nm) == Some((PROG_OFFSET + size) as u64));
                lemma_pass1_keeps_lookup(
                    nodes,
                    (i + 1) as nat,
                    size,
                    tab2,
                    nm,
                    (PROG_OFFSET + size) as u64,
                );
            },
            _ => {},
        }
    } else {
        match nodes[i as int] {
            AstNode::Cmd(name, args) => {
                let sz = size_of_cmd(name@, args@)->Ok_0;
                lemma_pass1_label_addr(nodes, (i + 1) as nat, (size + sz) as u64, tab, j);
            },
            AstNode::Label(nm2) => {
                let p = (nm2@, (PROG_OFFSET + size) as u64);
                lemma_st_lookup_push(tab, p, nm);
                assert(!is_label_named(nodes[i as int], nm));
                lemma_pass1_label_addr(nodes, (i + 1) as nat, size, tab.push(p), j);
            },
            _ => {
                lemma_pass1_label_addr(nodes, (i + 1) as nat, size, tab, j);
            },
        }
    }
}

/// A label defined exactly once resolves, for every reference made through
/// the symbol table, to the sum of the sizes of all instructions preceding
/// its declaration, plus the reserved byte and the program's base offset.
pub proof fn lemma_label_resolution(nodes: Seq<AstNode>, j: nat)
    requires
        spec_pass1(nodes, 0, 1, init_tab()) is Ok,
        j < nodes.len(),
        nodes[j as int] matches AstNode::Label(_),
        label_name(nodes[j as int]) != "._zero"@,
        forall|k: int|
            0 <= k < nodes.len() && k != j ==> !is_label_named(
                #[trigger] nodes[k],
                label_name(nodes[j as int]),
            ),
    ensures
        st_lookup(spec_pass1(nodes, 0, 1, init_tab())->Ok_0.1, label_name(nodes[j as int]))
            == Some(((PROG_OFFSET + 1 + sizes_sum_range(nodes, 0, j)) as u64)),
{
    let nm = label_name(nodes[j as int]);
    assert(init_tab().drop_first() =~= Seq::<(Seq<char>, u64)>::empty());
    assert(st_lookup(Seq::<(Seq<char>, u64)>::empty(), nm) is None);
    assert(st_lookup(init_tab(), nm) is None);
    lemma_pass1_label_addr(nodes, 0, 1, init_tab(), j);
}

/// A name bound in the table stays detectable, so a later declaration of
/// it cannot be accepted.
proof fn lemma_pass1_no_redeclare(
    nodes: Seq<AstNode>,
    i: nat,
    size: u64,
    tab: Seq<(Seq<char>, u64)>,
    j: nat,
)
    requires
        i <= j < nodes.len(),
        nodes[j as int] matches AstNode::Label(_),
        st_contains(tab, label_name(nodes[j as int])),
    ensures
        !(spec_pass1(nodes, i, size, tab) is Ok),
    decreases nodes.len() - i,
{
    let nm = label_name(nodes[j as int]);
    if i == j {
    } else if spec_pass1(nodes, i, size, tab) is Ok {
        match nodes[i as int] {
            AstNode::Cmd(name, args) => {
                let sz = size_of_cmd(name@, args@)->Ok_0;
                lemma_pass1_no_redeclare(nodes, (i + 1) as nat, (size + sz) as u64, tab, j);
            },
            AstNode::Label(nm2) => {
                let p = (nm2@, (PROG_OFFSET + size) as u64);
                lemma_st_lookup_push(tab, p, nm);
                lemma_pass1_no_redeclare(nodes, (i + 1) as nat, size, tab.push(p), j);
            },
            _ => {
                lemma_pass1_no_redeclare(nodes, (i + 1) as nat, size, tab, j);
            },
        }
    }
}

/// Working form: once a label is declared, a second declaration of the
/// same name later cannot pass.
proof fn lemma_pass1_dup(
    nodes: Seq<AstNode>,
    i: nat,
    size: u64,
    tab: Seq<(Seq<char>, u64)>,
    j1: nat,
    j2: nat,
)
    requires
        i <= j1 < j2 < nodes.len(),
        nodes[j1 as int] matches AstNode::Label(_),
        nodes[j2 as int] matches AstNode::Label(_),
        label_name(nodes[j1 as int]) == label_name(nodes[j2 as int]),
    ensures
        !(spec_pass1(nodes, i, size, tab) is Ok),
    decreases nodes.len() - i,
{
    let nm = label_name(nodes[j1 as int]);
    if !(spec_pass1(nodes, i, size, tab) is Ok) {
    } else if i == j1 {
        match nodes[i as int] {
            AstNode::Label(nm2) => {
                let p = (nm2@, (PROG_OFFSET + size) as u64);
                lemma_st_lookup_push(tab, p, nm);
                lemma_pass1_no_redeclare(nodes, (i + 1) as nat, size, tab.push(p), j2);
            },
            _ => {},
        }
    } else {
        match nodes[i as int] {
            AstNode::Cmd(name, args) => {
                let sz = size_of_cmd(name@, args@)->Ok_0;
                lemma_pass1_dup(nodes, (i + 1) as nat, (size + sz) as u64, tab, j1, j2);
            },
            AstNode::Label(nm2) => {
                let p = (nm2@, (PROG_OFFSET + size) as u64);
                lemma_pass1_dup(nodes, (i + 1) as nat, size, tab.push(p), j1, j2);
            },
            _ => {
                lemma_pass1_dup(nodes, (i + 1) as nat, size, tab, j1, j2);
            },
        }
    }
}

/// Defining the same label name twice in one program is rejected in
/// pass 1, so the whole compilation aborts and no bytecode is produced.
pub proof fn lemma_duplicate_label_rejected(nodes: Seq<AstNode>, j1: nat, j2: nat)
    requires
        j1 < j2 < nodes.len(),
        nodes[j1 as int] matches AstNode::Label(_),
        nodes[j2 as int] matches AstNode::Label(_),
        label_name(nodes[j1 as int]) == label_name(nodes[j2 as int]),
    ensures
        spec_compile(nodes) is Err,
{
    lemma_pass1_dup(nodes, 0, 1, init_tab(), j1, j2);
}

/// A command that encodes resolved every label among its operands.
proof fn lemma_encode_resolves(
    name: Seq<char>,
    args: Seq<Value>,
    tab: Seq<(Seq<char>, u64)>,
    q: nat,
)
    requires
        encode_cmd(name, args, tab) is Ok,
        q < args.len(),
        args[q as int] matches Value::Label(_),
    ensures
        st_contains(tab, args[q as int]->Label_0@),
{
}

/// Working form: every label argument of every command in an accepted
/// pass 2 is bound in the table.
proof fn lemma_pass2_resolves(
    nodes: Seq<AstNode>,
    i: nat,
    tab: Seq<(Seq<char>, u64)>,
    acc: Seq<u8>,
    j: nat,
    q: nat,
)
    requires
        spec_pass2(nodes, i, tab, acc) is Ok,
        i <= j < nodes.len(),
        nodes[j as int] matches AstNode::Cmd(_, _),
        q < cmd_args(nodes[j as int]).len(),
        cmd_args(nodes[j as int])[q as int] matches Value::Label(_),
    ensures
        st_contains(tab, cmd_args(nodes[j as int])[q as int]->Label_0@),
    decreases nodes.len() - i,
{
    if i == j {
        match nodes[i as int] {
            AstNode::Cmd(name, args) => {
                lemma_encode_resolves(name@, args@, tab, q);
            },
            _ => {},
        }
    } else {
        match nodes[i as int] {
            AstNode::Cmd(name, args) => {
                let bs = encode_cmd(name@, args@, tab)->Ok_0;
                lemma_pass2_resolves(nodes, (i + 1) as nat, tab, acc + bs, j, q);
            },
            _ => {
                lemma_pass2_resolves(nodes, (i + 1) as nat, tab, acc, j, q);
            },
        }
    }
}

/// Every name pass 1 binds is the built-in `._zero` or a label declared in
/// the program.
proof fn lemma_pass1_tab_members(
    nodes: Seq<AstNode>,
    i: nat,
    size: u64,
    tab: Seq<(Seq<char>, u64)>,
    nm: Seq<char>,
)
    requires
        spec_pass1(nodes, i, size, tab) is Ok,
        st_contains(spec_pass1(nodes, i, size, tab)->Ok_0.1, nm),
        !st_contains(tab, nm),
    ensures
        exists|k: int| i <= k < nodes.len() && is_label_named(#[trigger] nodes[k], nm),
    decreases nodes.len() - i,
{
    if i < nodes.len() {
        match nodes[i as int] {
            AstNode::Cmd(name, args) => {
                let sz = size_of_cmd(name@, args@)->Ok_0;
                lemma_pass1_tab_members(nodes, (i + 1) as nat, (size + sz) as u64, tab, nm);
            },
            AstNode::Label(nm2) => {
                let p = (nm2@, (PROG_OFFSET + size) as u64);
                if nm2@ == nm {
                    assert(is_label_named(nodes[i as int], nm));
                } else {
                    lemma_st_lookup_push(tab, p, nm);
                    lemma_pass1_tab_members(nodes, (i + 1) as nat, size, tab.push(p), nm);
                }
            },
            _ => {
                lemma_pass1_tab_members(nodes, (i + 1) as nat, size, tab, nm);
            },
        }
    }
}

/// Referencing a label that is never declared is rejected: in any program
/// that assembles, every label a command names is the built-in `._zero` or
/// declared by some label node, so an undefined reference always aborts
/// compilation with no bytecode.
pub proof fn lemma_references_declared(nodes: Seq<AstNode>, j: nat, q: nat)
    requires
        spec_compile(nodes) is Ok,
        j < nodes.len(),
        nodes[j as int] matches AstNode::Cmd(_, _),
        q < cmd_args(nodes[j as int]).len(),
        cmd_args(nodes[j as int])[q as int] matches Value::Label(_),
    ensures
        cmd_args(nodes[j as int])[q as int]->Label_0@ == "._zero"@ || exists|k: int|
            0 <= k < nodes.len() && is_label_named(#[trigger] nodes[k], cmd_args(
                nodes[j as int],
            )[q as int]->Label_0@),
{
    let nm = cmd_args(nodes[j as int])[q as int]->Label_0@;
    let tabf = spec_pass1(nodes, 0, 1, init_tab())->Ok_0.1;
    lemma_pass2_resolves(nodes, 0, tabf, seq![0u8], j, q);
    if nm != "._zero"@ {
        assert(init_tab().drop_first() =~= Seq::<(Seq<char>, u64)>::empty());
        assert(st_lookup(Seq::<(Seq<char>, u64)>::empty(), nm) is None);
        assert(!st_contains(init_tab(), nm));
        lemma_pass1_tab_members(nodes, 0, 1, init_tab(), nm);
    }
}


/// The contract both halves share: the opcode byte the assembler emits for
/// a width-family mnemonic — its family's base byte, plus the width
/// offset, plus the pointer flag — decodes, through the dispatch engine's
/// total table, to exactly that family's instruction class at that width
/// and source kind. Assembler and engine agree on the layout byte for
/// byte.
pub proof fn lemma_encoding_matches_dispatch(c: AsmCmd, k: SrcKind)
    requires
        spec_has_base(c),
    ensures
        ({
            let flag: u8 = match k {
                SrcKind::Imm => 0,
                SrcKind::Ptr => 1,
            };
            let byte = (spec_op_byte(spec_base_op(c)) + spec_base_off(c) + flag) as u8;
            match spec_decode(byte) {
                Some(op) => spec_classify(op) == (match spec_cmd_kind(c) {
                    CmdKind::IntOp(w) => match spec_classify(spec_base_op(c)) {
                        Instr::Int(f, _, _) => Instr::Int(f, w, k),
                        _ => Instr::Cpy(w, k),
                    },
                    CmdKind::CpaOp(w) => Instr::Cpa(w, k),
                    _ => Instr::Reserved,
                }),
                None => false,
            }
        }),
{
}

} // verus!
