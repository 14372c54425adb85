//! Diamondback's x86-64 instructions, their models and their assembly text.
use vstd::prelude::*;
use crate::text::{decimal, push_decimal};

verus! {

/// Registers used by Diamondback's code.
#[derive(Debug, Clone, Copy, PartialEq, Eq, Structural)]
pub enum Reg {
    RAX,
    RSP,
    RBP,
    RDI,
    R10,
    R11,
    R12,
}

/// Instruction operands.
#[derive(Debug, Clone, Copy, PartialEq, Eq, Structural)]
pub enum Val {
    Reg(Reg),
    Imm(i64),
    RegOffset(Reg, i32),
}

/// Instructions.
#[derive(Debug)]
pub enum Instr {
    IMov(Val, Val),
    IAdd(Val, Val),
    ISub(Val, Val),
    IMul(Val, Val),
    ISar(Val, Val),
    IAnd(Val, Val),
    ITest(Val, Val),
    ICmp(Val, Val),
    ILabel(String),
    IJmp(String),
    IJe(String),
    IJne(String),
    IJg(String),
    IJge(String),
    IJl(String),
    IJle(String),
    IPush(Val),
    IPop(Val),
    ICall(String),
    IRet,
}

/// Conditions of conditional jumps.
#[derive(Debug, Clone, Copy, PartialEq, Eq, Structural)]
pub enum CJump {
    E,
    G,
    GE,
    L,
    LE,
}

/// Mathematical model of an instruction: names as character sequences.
pub enum InstrV {
    IMov(Val, Val),
    IAdd(Val, Val),
    ISub(Val, Val),
    IMul(Val, Val),
    ISar(Val, Val),
    IAnd(Val, Val),
    ITest(Val, Val),
    ICmp(Val, Val),
    ILabel(Seq<char>),
    IJmp(Seq<char>),
    IJe(Seq<char>),
    IJne(Seq<char>),
    IJg(Seq<char>),
    IJge(Seq<char>),
    IJl(Seq<char>),
    IJle(Seq<char>),
    IPush(Val),
    IPop(Val),
    ICall(Seq<char>),
    IRet,
}

impl View for Instr {
    type V = InstrV;

    open spec fn view(&self) -> InstrV {
        match self {
            Instr::IMov(a, b) => InstrV::IMov(*a, *b),
            Instr::IAdd(a, b) => InstrV::IAdd(*a, *b),
            Instr::ISub(a, b) => InstrV::ISub(*a, *b),
            Instr::IMul(a, b) => InstrV::IMul(*a, *b),
            Instr::ISar(a, b) => InstrV::ISar(*a, *b),
            Instr::IAnd(a, b) => InstrV::IAnd(*a, *b),
            Instr::ITest(a, b) => InstrV::ITest(*a, *b),
            Instr::ICmp(a, b) => InstrV::ICmp(*a, *b),
            Instr::ILabel(l) => InstrV::ILabel(l@),
            Instr::IJmp(l) => InstrV::IJmp(l@),
            Instr::IJe(l) => InstrV::IJe(l@),
            Instr::IJne(l) => InstrV::IJne(l@),
            Instr::IJg(l) => InstrV::IJg(l@),
            Instr::IJge(l) => InstrV::IJge(l@),
            Instr::IJl(l) => InstrV::IJl(l@),
            Instr::IJle(l) => InstrV::IJle(l@),
            Instr::IPush(v) => InstrV::IPush(*v),
            Instr::IPop(v) => InstrV::IPop(*v),
            Instr::ICall(l) => InstrV::ICall(l@),
            Instr::IRet => InstrV::IRet,
        }
    }
}

/// The models of a sequence of instructions.
pub open spec fn instrs_view(s: Seq<Instr>) -> Seq<InstrV> {
    s.map_values(|i: Instr| i@)
}

/// `instrs_view` distributes over concatenation.
pub broadcast proof fn lemma_instrs_view_add(a: Seq<Instr>, b: Seq<Instr>)
    ensures
        #[trigger] instrs_view(a + b) == instrs_view(a) + instrs_view(b),
{
    assert(instrs_view(a + b) =~= instrs_view(a) + instrs_view(b));
}

/// `instrs_view` of a push.
pub broadcast proof fn lemma_instrs_view_push(a: Seq<Instr>, x: Instr)
    ensures
        #[trigger] instrs_view(a.push(x)) == instrs_view(a).push(x@),
{
    assert(instrs_view(a.push(x)) =~= instrs_view(a).push(x@));
}

/// The assembly name of a register.
pub open spec fn reg_text(r: Reg) -> Seq<char> {
    match r {
        Reg::RAX => "rax"@,
        Reg::RSP => "rsp"@,
        Reg::RBP => "rbp"@,
        Reg::RDI => "rdi"@,
        Reg::R10 => "r10"@,
        Reg::R11 => "r11"@,
        Reg::R12 => "r12"@,
    }
}

/// The assembly text of an operand: memory operands read `qword [reg + n]`,
/// `qword [reg - n]` or `qword [reg]` by the sign of the offset.
pub open spec fn val_text(v: Val) -> Seq<char> {
    match v {
        Val::Reg(r) => reg_text(r),
        Val::Imm(n) => decimal(n as int),
        Val::RegOffset(r, off) => if off > 0 {
            "qword ["@ + reg_text(r) + " + "@ + decimal(off as int) + "]"@
        } else if off < 0 {
            "qword ["@ + reg_text(r) + " - "@ + decimal(-off) + "]"@
        } else {
            "qword ["@ + reg_text(r) + "]"@
        },
    }
}

/// The assembly text of an instruction: labels at the margin, everything else
/// indented by two spaces.
pub open spec fn instr_text(i: InstrV) -> Seq<char> {
    match i {
        InstrV::IMov(d, s) => "  mov "@ + val_text(d) + ", "@ + val_text(s),
        InstrV::IAdd(d, s) => "  add "@ + val_text(d) + ", "@ + val_text(s),
        InstrV::ISub(d, s) => "  sub "@ + val_text(d) + ", "@ + val_text(s),
        InstrV::IMul(d, s) => "  imul "@ + val_text(d) + ", "@ + val_text(s),
        InstrV::ISar(d, s) => "  sar "@ + val_text(d) + ", "@ + val_text(s),
        InstrV::IAnd(d, s) => "  and "@ + val_text(d) + ", "@ + val_text(s),
        InstrV::ITest(d, s) => "  test "@ + val_text(d) + ", "@ + val_text(s),
        InstrV::ICmp(d, s) => "  cmp "@ + val_text(d) + ", "@ + val_text(s),
        InstrV::ILabel(l) => l + ":"@,
        InstrV::IJmp(l) => "  jmp "@ + l,
        InstrV::IJe(l) => "  je "@ + l,
        InstrV::IJne(l) => "  jne "@ + l,
        InstrV::IJg(l) => "  jg "@ + l,
        InstrV::IJge(l) => "  jge "@ + l,
        InstrV::IJl(l) => "  jl "@ + l,
        InstrV::IJle(l) => "  jle "@ + l,
        InstrV::IPush(v) => "  push "@ + val_text(v),
        InstrV::IPop(v) => "  pop "@ + val_text(v),
        InstrV::ICall(l) => "  call "@ + l,
        InstrV::IRet => "  ret"@,
    }
}

/// The assembly name of a register.
pub fn reg_to_str(reg: Reg) -> (s: &'static str)
    ensures
        s@ == reg_text(reg),
{
    match reg {
        Reg::RAX => "rax",
        Reg::RSP => "rsp",
        Reg::RBP => "rbp",
        Reg::RDI => "rdi",
        Reg::R10 => "r10",
        Reg::R11 => "r11",
        Reg::R12 => "r12",
    }
}

/// The assembly text of an operand.
pub fn val_to_str(value: &Val) -> (s: String)
    ensures
        s@ == val_text(*value),
{
    match value {
        Val::Reg(reg) => reg_to_str(*reg).to_owned(),
        Val::Imm(n) => {
            let mut s = String::new();
            push_decimal(&mut s, *n);
            proof {
                assert(s@ =~= val_text(*value));
            }
            s
        },
        Val::RegOffset(reg, offset) => {
            let mut s = "qword [".to_owned();
            s.append(reg_to_str(*reg));
            if *offset > 0 {
                s.append(" + ");
                push_decimal(&mut s, *offset as i64);
            } else if *offset < 0 {
                s.append(" - ");
                push_decimal(&mut s, -(*offset as i64));
            }
            s.append("]");
            proof {
                assert(s@ =~= val_text(*value));
            }
            s
        },
    }
}

fn op_with_operands(name: &str, d: &Val, s: &Val) -> (r: String)
    ensures
        r@ == name@ + val_text(*d) + ", "@ + val_text(*s),
{
    let mut r = name.to_owned();
    let dt = val_to_str(d);
    r.append(dt.as_str());
    r.append(", ");
    let st = val_to_str(s);
    r.append(st.as_str());
    r
}

fn with_name(prefix: &str, l: &String) -> (r: String)
    ensures
        r@ == prefix@ + l@,
{
    let mut r = prefix.to_owned();
    r.append(l.as_str());
    r
}

fn with_val(prefix: &str, v: &Val) -> (r: String)
    ensures
        r@ == prefix@ + val_text(*v),
{
    let mut r = prefix.to_owned();
    let t = val_to_str(v);
    r.append(t.as_str());
    r
}

/// The assembly text of an instruction.
pub fn instr_to_str(instr: Instr) -> (s: String)
    ensures
        s@ == instr_text(instr@),
{
    match instr {
        Instr::IMov(d, o) => op_with_operands("  mov ", &d, &o),
        Instr::IAdd(d, o) => op_with_operands("  add ", &d, &o),
        Instr::ISub(d, o) => op_with_operands("  sub ", &d, &o),
        Instr::IMul(d, o) => op_with_operands("  imul ", &d, &o),
        Instr::ISar(d, o) => op_with_operands("  sar ", &d, &o),
        Instr::IAnd(d, o) => op_with_operands("  and ", &d, &o),
        Instr::ITest(d, o) => op_with_operands("  test ", &d, &o),
        Instr::ICmp(d, o) => op_with_operands("  cmp ", &d, &o),
        Instr::ILabel(l) => {
            let mut r = l;
            r.append(":");
            r
        },
        Instr::IJmp(l) => with_name("  jmp ", &l),
        Instr::IJe(l) => with_name("  je ", &l),
        Instr::IJne(l) => with_name("  jne ", &l),
        Instr::IJg(l) => with_name("  jg ", &l),
        Instr::IJge(l) => with_name("  jge ", &l),
        Instr::IJl(l) => with_name("  jl ", &l),
        Instr::IJle(l) => with_name("  jle ", &l),
        Instr::IPush(v) => with_val("  push ", &v),
        Instr::IPop(v) => with_val("  pop ", &v),
        Instr::ICall(l) => with_name("  call ", &l),
        Instr::IRet => "  ret".to_owned(),
    }
}

} // verus!
