use vstd::prelude::*;
use vstd::string::StringExecFns;
use crate::value::{BinaryOp, ErrorKind, UnaryOp};

verus! {

/// One instruction as the external compiler hands it over: how many bytes it
/// occupies, its opcode name and its decoded operand.
pub struct ForeignInstr {
    pub size: usize,
    pub name: String,
    pub arg: Option<usize>,
}

/// The opcode vocabulary of the external compiler.
#[derive(Clone, Copy, Debug, PartialEq, Eq, Structural)]
pub enum Opcode {
    LoadConst,
    PopTop,
    LoadFast,
    StoreName,
    LoadName,
    LoadGlobal,
    BuildList,
    BuildSlice,
    GetIter,
    ForIter,
    CompareOp,
    PopJumpIfTrue,
    PopJumpIfFalse,
    JumpForward,
    JumpAbsolute,
    BreakLoop,
    RaiseVarargs,
    InplaceAdd,
    StoreSubscr,
    BinaryAdd,
    BinaryPower,
    BinaryMultiply,
    BinaryTrueDivide,
    BinaryModulo,
    BinarySubtract,
    RotTwo,
    UnaryNegative,
    UnaryPositive,
    PrintItem,
    PrintNewline,
    MakeFunction,
    CallFunction,
    ReturnValue,
    SetupLoop,
    PopBlock,
    Marker,
    Unknown,
}

/// An instruction in the engine's own form: jump targets are instruction indices.
#[derive(Clone, Copy, Debug, PartialEq, Eq, Structural)]
pub enum Instr {
    LoadConst(usize),
    Pop,
    LoadFast(usize),
    StoreName(usize),
    LoadName(usize),
    LoadGlobal(usize),
    BuildList(usize),
    BuildSlice(usize),
    GetIter,
    ForIter(usize),
    Compare(usize),
    JumpIfTrue(usize),
    JumpIfFalse(usize),
    Jump(usize),
    Break,
    Raise(usize),
    StoreSubscr,
    Binary(BinaryOp),
    RotTwo,
    Unary(UnaryOp),
    PrintItem,
    PrintNewline,
    MakeFunction,
    Call(usize, usize),
    Return,
    SetupLoop(usize),
    PopBlock,
    Nop,
    Unsupported,
}

pub open spec fn opcode_of(s: Seq<char>) -> Opcode {
    if s == "LOAD_CONST"@ { Opcode::LoadConst }
    else if s == "POP_TOP"@ { Opcode::PopTop }
    else if s == "LOAD_FAST"@ { Opcode::LoadFast }
    else if s == "STORE_NAME"@ { Opcode::StoreName }
    else if s == "LOAD_NAME"@ { Opcode::LoadName }
    else if s == "LOAD_GLOBAL"@ { Opcode::LoadGlobal }
    else if s == "BUILD_LIST"@ { Opcode::BuildList }
    else if s == "BUILD_SLICE"@ { Opcode::BuildSlice }
    else if s == "GET_ITER"@ { Opcode::GetIter }
    else if s == "FOR_ITER"@ { Opcode::ForIter }
    else if s == "COMPARE_OP"@ { Opcode::CompareOp }
    else if s == "POP_JUMP_IF_TRUE"@ { Opcode::PopJumpIfTrue }
    else if s == "POP_JUMP_IF_FALSE"@ { Opcode::PopJumpIfFalse }
    else if s == "JUMP_FORWARD"@ { Opcode::JumpForward }
    else if s == "JUMP_ABSOLUTE"@ { Opcode::JumpAbsolute }
    else if s == "BREAK_LOOP"@ { Opcode::BreakLoop }
    else if s == "RAISE_VARARGS"@ { Opcode::RaiseVarargs }
    else if s == "INPLACE_ADD"@ { Opcode::InplaceAdd }
    else if s == "STORE_SUBSCR"@ { Opcode::StoreSubscr }
    else if s == "BINARY_ADD"@ { Opcode::BinaryAdd }
    else if s == "BINARY_POWER"@ { Opcode::BinaryPower }
    else if s == "BINARY_MULTIPLY"@ { Opcode::BinaryMultiply }
    else if s == "BINARY_TRUE_DIVIDE"@ { Opcode::BinaryTrueDivide }
    else if s == "BINARY_MODULO"@ { Opcode::BinaryModulo }
    else if s == "BINARY_SUBTRACT"@ { Opcode::BinarySubtract }
    else if s == "ROT_TWO"@ { Opcode::RotTwo }
    else if s == "UNARY_NEGATIVE"@ { Opcode::UnaryNegative }
    else if s == "UNARY_POSITIVE"@ { Opcode::UnaryPositive }
    else if s == "PRINT_ITEM"@ { Opcode::PrintItem }
    else if s == "PRINT_NEWLINE"@ { Opcode::PrintNewline }
    else if s == "MAKE_FUNCTION"@ { Opcode::MakeFunction }
    else if s == "CALL_FUNCTION"@ { Opcode::CallFunction }
    else if s == "RETURN_VALUE"@ { Opcode::ReturnValue }
    else if s == "SETUP_LOOP"@ { Opcode::SetupLoop }
    else if s == "POP_BLOCK"@ { Opcode::PopBlock }
    else if s == "SetLineno"@ || s == "LABEL"@ { Opcode::Marker }
    else { Opcode::Unknown }
}

fn named(name: &String, lit: &str) -> (r: bool)
    ensures
        r == (name@ == lit@),
{
    let s = <String as StringExecFns>::from_str(lit);
    *name == s
}

/// Looks an opcode name up in the vocabulary.
pub fn opcode_named(name: &String) -> (r: Opcode)
    ensures
        r == opcode_of(name@),
{
    if named(name, "LOAD_CONST") { Opcode::LoadConst }
    else if named(name, "POP_TOP") { Opcode::PopTop }
    else if named(name, "LOAD_FAST") { Opcode::LoadFast }
    else if named(name, "STORE_NAME") { Opcode::StoreName }
    else if named(name, "LOAD_NAME") { Opcode::LoadName }
    else if named(name, "LOAD_GLOBAL") { Opcode::LoadGlobal }
    else if named(name, "BUILD_LIST") { Opcode::BuildList }
    else if named(name, "BUILD_SLICE") { Opcode::BuildSlice }
    else if named(name, "GET_ITER") { Opcode::GetIter }
    else if named(name, "FOR_ITER") { Opcode::ForIter }
    else if named(name, "COMPARE_OP") { Opcode::CompareOp }
    else if named(name, "POP_JUMP_IF_TRUE") { Opcode::PopJumpIfTrue }
    else if named(name, "POP_JUMP_IF_FALSE") { Opcode::PopJumpIfFalse }
    else if named(name, "JUMP_FORWARD") { Opcode::JumpForward }
    else if named(name, "JUMP_ABSOLUTE") { Opcode::JumpAbsolute }
    else if named(name, "BREAK_LOOP") { Opcode::BreakLoop }
    else if named(name, "RAISE_VARARGS") { Opcode::RaiseVarargs }
    else if named(name, "INPLACE_ADD") { Opcode::InplaceAdd }
    else if named(name, "STORE_SUBSCR") { Opcode::StoreSubscr }
    else if named(name, "BINARY_ADD") { Opcode::BinaryAdd }
    else if named(name, "BINARY_POWER") { Opcode::BinaryPower }
    else if named(name, "BINARY_MULTIPLY") { Opcode::BinaryMultiply }
    else if named(name, "BINARY_TRUE_DIVIDE") { Opcode::BinaryTrueDivide }
    else if named(name, "BINARY_MODULO") { Opcode::BinaryModulo }
    else if named(name, "BINARY_SUBTRACT") { Opcode::BinarySubtract }
    else if named(name, "ROT_TWO") { Opcode::RotTwo }
    else if named(name, "UNARY_NEGATIVE") { Opcode::UnaryNegative }
    else if named(name, "UNARY_POSITIVE") { Opcode::UnaryPositive }
    else if named(name, "PRINT_ITEM") { Opcode::PrintItem }
    else if named(name, "PRINT_NEWLINE") { Opcode::PrintNewline }
    else if named(name, "MAKE_FUNCTION") { Opcode::MakeFunction }
    else if named(name, "CALL_FUNCTION") { Opcode::CallFunction }
    else if named(name, "RETURN_VALUE") { Opcode::ReturnValue }
    else if named(name, "SETUP_LOOP") { Opcode::SetupLoop }
    else if named(name, "POP_BLOCK") { Opcode::PopBlock }
    else if named(name, "SetLineno") || named(name, "LABEL") { Opcode::Marker }
    else { Opcode::Unknown }
}

/// Byte offset at which instruction `i` starts.
pub open spec fn offset_at(code: Seq<ForeignInstr>, i: int) -> int
    decreases i,
{
    if i <= 0 || i > code.len() {
        0
    } else {
        offset_at(code, i - 1) + code[i - 1].size
    }
}

/// The label map, searched among the first `n` instructions: the last
/// instruction that starts at byte offset `off`.
pub open spec fn label_below(code: Seq<ForeignInstr>, off: int, n: int) -> Option<int>
    decreases n,
{
    if n <= 0 {
        None
    } else if offset_at(code, n - 1) == off {
        Some(n - 1)
    } else {
        label_below(code, off, n - 1)
    }
}

/// The label map: from a byte offset to the index of the instruction there.
pub open spec fn label_of(code: Seq<ForeignInstr>, off: int) -> Option<int> {
    label_below(code, off, code.len() as int)
}

pub open spec fn jump_to(code: Seq<ForeignInstr>, off: int, f: spec_fn(usize) -> Instr) -> Result<Instr, ErrorKind> {
    match label_of(code, off) {
        Some(j) => Ok(f(j as usize)),
        None => Err(ErrorKind::MalformedBytecode),
    }
}

/// The engine's form of instruction `i`.
pub open spec fn decoded(code: Seq<ForeignInstr>, i: int) -> Result<Instr, ErrorKind> {
    let next = offset_at(code, i + 1);
    match (opcode_of(code[i].name@), code[i].arg) {
        (Opcode::LoadConst, Some(a)) => Ok(Instr::LoadConst(a)),
        (Opcode::PopTop, None) => Ok(Instr::Pop),
        (Opcode::LoadFast, Some(a)) => Ok(Instr::LoadFast(a)),
        (Opcode::StoreName, Some(a)) => Ok(Instr::StoreName(a)),
        (Opcode::LoadName, Some(a)) => Ok(Instr::LoadName(a)),
        (Opcode::LoadGlobal, Some(a)) => Ok(Instr::LoadGlobal(a)),
        (Opcode::BuildList, Some(a)) => Ok(Instr::BuildList(a)),
        (Opcode::BuildSlice, Some(a)) => Ok(Instr::BuildSlice(a)),
        (Opcode::GetIter, None) => Ok(Instr::GetIter),
        (Opcode::ForIter, Some(d)) => jump_to(code, next + d, |j: usize| Instr::ForIter(j)),
        (Opcode::CompareOp, Some(a)) => Ok(Instr::Compare(a)),
        (Opcode::PopJumpIfTrue, Some(t)) => jump_to(code, t as int, |j: usize| Instr::JumpIfTrue(j)),
        (Opcode::PopJumpIfFalse, Some(t)) => jump_to(code, t as int, |j: usize| Instr::JumpIfFalse(j)),
        (Opcode::JumpForward, Some(d)) => jump_to(code, next + d, |j: usize| Instr::Jump(j)),
        (Opcode::JumpAbsolute, Some(t)) => jump_to(code, t as int, |j: usize| Instr::Jump(j)),
        (Opcode::BreakLoop, None) => Ok(Instr::Break),
        (Opcode::RaiseVarargs, Some(a)) => Ok(Instr::Raise(a)),
        (Opcode::InplaceAdd, None) => Ok(Instr::Binary(BinaryOp::Add)),
        (Opcode::StoreSubscr, None) => Ok(Instr::StoreSubscr),
        (Opcode::BinaryAdd, None) => Ok(Instr::Binary(BinaryOp::Add)),
        (Opcode::BinaryPower, None) => Ok(Instr::Binary(BinaryOp::Power)),
        (Opcode::BinaryMultiply, None) => Ok(Instr::Binary(BinaryOp::Multiply)),
        (Opcode::BinaryTrueDivide, None) => Ok(Instr::Binary(BinaryOp::TrueDivide)),
        (Opcode::BinaryModulo, None) => Ok(Instr::Binary(BinaryOp::Modulo)),
        (Opcode::BinarySubtract, None) => Ok(Instr::Binary(BinaryOp::Subtract)),
        (Opcode::RotTwo, None) => Ok(Instr::RotTwo),
        (Opcode::UnaryNegative, None) => Ok(Instr::Unary(UnaryOp::Negate)),
        (Opcode::UnaryPositive, None) => Ok(Instr::Unary(UnaryOp::Identity)),
        (Opcode::PrintItem, None) => Ok(Instr::PrintItem),
        (Opcode::PrintNewline, None) => Ok(Instr::PrintNewline),
        (Opcode::MakeFunction, Some(_)) => Ok(Instr::MakeFunction),
        (Opcode::CallFunction, Some(a)) => Ok(Instr::Call(a % 256, (a / 256) % 256)),
        (Opcode::ReturnValue, None) => Ok(Instr::Return),
        (Opcode::SetupLoop, Some(d)) => jump_to(code, next + d, |j: usize| Instr::SetupLoop(j)),
        (Opcode::PopBlock, None) => Ok(Instr::PopBlock),
        (Opcode::Marker, _) => Ok(Instr::Nop),
        _ => Ok(Instr::Unsupported),
    }
}

/// Whether a code unit can be translated: it has instructions, its byte
/// offsets fit in a `usize`, and every jump target is the start of one of them.
pub open spec fn translatable(code: Seq<ForeignInstr>) -> bool {
    &&& code.len() > 0
    &&& offset_at(code, code.len() as int) <= usize::MAX
    &&& forall|i: int| 0 <= i < code.len() ==> (#[trigger] decoded(code, i)) is Ok
}

proof fn lemma_offsets_grow(code: Seq<ForeignInstr>, i: int, j: int)
    requires
        0 <= i <= j <= code.len(),
    ensures
        offset_at(code, i) <= offset_at(code, j),
    decreases j - i,
{
    if i < j {
        lemma_offsets_grow(code, i, j - 1);
    }
}

proof fn lemma_label_below(code: Seq<ForeignInstr>, off: int, n: int)
    requires
        0 <= n <= code.len(),
    ensures
        match label_below(code, off, n) {
            Some(j) => 0 <= j < n && offset_at(code, j) == off && forall|k: int|
                j < k < n ==> offset_at(code, k) != off,
            None => forall|k: int| 0 <= k < n ==> offset_at(code, k) != off,
        },
    decreases n,
{
    if n > 0 {
        lemma_label_below(code, off, n - 1);
    }
}

/// Every instruction's start offset resolves through the label map, to an
/// instruction that starts at that same offset and that is no earlier.
pub proof fn lemma_label_resolves(code: Seq<ForeignInstr>, i: int)
    requires
        0 <= i < code.len(),
    ensures
        label_of(code, offset_at(code, i)) matches Some(j) && i <= j < code.len() && offset_at(
            code,
            j,
        ) == offset_at(code, i),
{
    lemma_label_below(code, offset_at(code, i), code.len() as int);
}

/// Every jump target of a translated unit is one of its instruction indices.
pub open spec fn targets_in_range(instrs: Seq<Instr>) -> bool {
    forall|i: int|
        0 <= i < instrs.len() ==> match #[trigger] instrs[i] {
            Instr::ForIter(t) | Instr::JumpIfTrue(t) | Instr::JumpIfFalse(t) | Instr::Jump(t)
            | Instr::SetupLoop(t) => t < instrs.len(),
            _ => true,
        }
}

/// The label map is a function of the code alone, and every jump target that
/// the translator resolves through it is a valid instruction index.
pub proof fn lemma_translation_targets(code: Seq<ForeignInstr>, i: int)
    requires
        translatable(code),
        0 <= i < code.len(),
    ensures
        match decoded(code, i).unwrap() {
            Instr::ForIter(t) | Instr::JumpIfTrue(t) | Instr::JumpIfFalse(t) | Instr::Jump(t)
            | Instr::SetupLoop(t) => t < code.len(),
            _ => true,
        },
{
    assert(decoded(code, i) is Ok);
    let next = offset_at(code, i + 1);
    let off = match code[i].arg {
        Some(a) => match opcode_of(code[i].name@) {
            Opcode::ForIter | Opcode::JumpForward | Opcode::SetupLoop => next + a,
            _ => a as int,
        },
        None => 0,
    };
    lemma_label_below(code, off, code.len() as int);
}

fn resolve(offsets: &Vec<usize>, off: usize, Ghost(code): Ghost<Seq<ForeignInstr>>) -> (r: Option<usize>)
    requires
        offsets@.len() == code.len() + 1,
        forall|k: int| 0 <= k <= code.len() ==> offsets@[k] == offset_at(code, k),
    ensures
        r matches Some(j) ==> label_of(code, off as int) == Some(j as int),
        r is None ==> label_of(code, off as int) is None,
{
    let mut n: usize = offsets.len() - 1;
    while n > 0
        invariant
            n <= code.len(),
            offsets@.len() == code.len() + 1,
            forall|k: int| 0 <= k <= code.len() ==> offsets@[k] == offset_at(code, k),
            label_of(code, off as int) == label_below(code, off as int, n as int),
        decreases n,
    {
        if offsets[n - 1] == off {
            return Some(n - 1);
        }
        n = n - 1;
    }
    None
}

fn target(offsets: &Vec<usize>, base: usize, delta: usize, Ghost(code): Ghost<Seq<ForeignInstr>>) -> (r: Option<usize>)
    requires
        offsets@.len() == code.len() + 1,
        forall|k: int| 0 <= k <= code.len() ==> offsets@[k] == offset_at(code, k),
    ensures
        r matches Some(j) ==> label_of(code, base + delta) == Some(j as int),
        r is None ==> label_of(code, base + delta) is None,
{
    match base.checked_add(delta) {
        Some(off) => resolve(offsets, off, Ghost(code)),
        None => {
            proof {
                lemma_label_below(code, base + delta, code.len() as int);
            }
            None
        },
    }
}

fn decode_at(code: &Vec<ForeignInstr>, offsets: &Vec<usize>, i: usize) -> (r: Result<Instr, ErrorKind>)
    requires
        i < code@.len(),
        offsets@.len() == code@.len() + 1,
        forall|k: int| 0 <= k <= code@.len() ==> offsets@[k] == offset_at(code@, k),
    ensures
        r == decoded(code@, i as int),
{
    let ghost c = code@;
    let count = offsets.len();
    assert(i + 1 < count);
    let next = offsets[i + 1];
    let f = &code[i];
    let op = opcode_named(&f.name);
    match (op, f.arg) {
        (Opcode::LoadConst, Some(a)) => Ok(Instr::LoadConst(a)),
        (Opcode::PopTop, None) => Ok(Instr::Pop),
        (Opcode::LoadFast, Some(a)) => Ok(Instr::LoadFast(a)),
        (Opcode::StoreName, Some(a)) => Ok(Instr::StoreName(a)),
        (Opcode::LoadName, Some(a)) => Ok(Instr::LoadName(a)),
        (Opcode::LoadGlobal, Some(a)) => Ok(Instr::LoadGlobal(a)),
        (Opcode::BuildList, Some(a)) => Ok(Instr::BuildList(a)),
        (Opcode::BuildSlice, Some(a)) => Ok(Instr::BuildSlice(a)),
        (Opcode::GetIter, None) => Ok(Instr::GetIter),
        (Opcode::ForIter, Some(d)) => match target(offsets, next, d, Ghost(c)) {
            Some(j) => Ok(Instr::ForIter(j)),
            None => Err(ErrorKind::MalformedBytecode),
        },
        (Opcode::CompareOp, Some(a)) => Ok(Instr::Compare(a)),
        (Opcode::PopJumpIfTrue, Some(t)) => match resolve(offsets, t, Ghost(c)) {
            Some(j) => Ok(Instr::JumpIfTrue(j)),
            None => Err(ErrorKind::MalformedBytecode),
        },
        (Opcode::PopJumpIfFalse, Some(t)) => match resolve(offsets, t, Ghost(c)) {
            Some(j) => Ok(Instr::JumpIfFalse(j)),
            None => Err(ErrorKind::MalformedBytecode),
        },
        (Opcode::JumpForward, Some(d)) => match target(offsets, next, d, Ghost(c)) {
            Some(j) => Ok(Instr::Jump(j)),
            None => Err(ErrorKind::MalformedBytecode),
        },
        (Opcode::JumpAbsolute, Some(t)) => match resolve(offsets, t, Ghost(c)) {
            Some(j) => Ok(Instr::Jump(j)),
            None => Err(ErrorKind::MalformedBytecode),
        },
        (Opcode::BreakLoop, None) => Ok(Instr::Break),
        (Opcode::RaiseVarargs, Some(a)) => Ok(Instr::Raise(a)),
        (Opcode::InplaceAdd, None) => Ok(Instr::Binary(BinaryOp::Add)),
        (Opcode::StoreSubscr, None) => Ok(Instr::StoreSubscr),
        (Opcode::BinaryAdd, None) => Ok(Instr::Binary(BinaryOp::Add)),
        (Opcode::BinaryPower, None) => Ok(Instr::Binary(BinaryOp::Power)),
        (Opcode::BinaryMultiply, None) => Ok(Instr::Binary(BinaryOp::Multiply)),
        (Opcode::BinaryTrueDivide, None) => Ok(Instr::Binary(BinaryOp::TrueDivide)),
        (Opcode::BinaryModulo, None) => Ok(Instr::Binary(BinaryOp::Modulo)),
        (Opcode::BinarySubtract, None) => Ok(Instr::Binary(BinaryOp::Subtract)),
        (Opcode::RotTwo, None) => Ok(Instr::RotTwo),
        (Opcode::UnaryNegative, None) => Ok(Instr::Unary(UnaryOp::Negate)),
        (Opcode::UnaryPositive, None) => Ok(Instr::Unary(UnaryOp::Identity)),
        (Opcode::PrintItem, None) => Ok(Instr::PrintItem),
        (Opcode::PrintNewline, None) => Ok(Instr::PrintNewline),
        (Opcode::MakeFunction, Some(_)) => Ok(Instr::MakeFunction),
        (Opcode::CallFunction, Some(a)) => Ok(Instr::Call(a % 256, (a / 256) % 256)),
        (Opcode::ReturnValue, None) => Ok(Instr::Return),
        (Opcode::SetupLoop, Some(d)) => match target(offsets, next, d, Ghost(c)) {
            Some(j) => Ok(Instr::SetupLoop(j)),
            None => Err(ErrorKind::MalformedBytecode),
        },
        (Opcode::PopBlock, None) => Ok(Instr::PopBlock),
        (Opcode::Marker, _) => Ok(Instr::Nop),
        _ => Ok(Instr::Unsupported),
    }
}

/// Translates a code unit's instructions into the engine's form, resolving
/// every jump through the unit's label map.
pub fn convert(code: &Vec<ForeignInstr>) -> (r: Result<Vec<Instr>, ErrorKind>)
    ensures
        r is Ok <==> translatable(code@),
        r matches Ok(v) ==> v@.len() == code@.len() && targets_in_range(v@) && forall|i: int|
            0 <= i < code@.len() ==> decoded(code@, i) == Ok::<Instr, ErrorKind>(#[trigger] v@[i]),
        r matches Err(e) ==> e == ErrorKind::MalformedBytecode,
{
    if code.len() == 0 {
        return Err(ErrorKind::MalformedBytecode);
    }
    let mut offsets: Vec<usize> = Vec::new();
    offsets.push(0);
    let mut k: usize = 0;
    while k < code.len()
        invariant
            k <= code@.len(),
            offsets@.len() == k + 1,
            forall|m: int| 0 <= m <= k ==> offsets@[m] == offset_at(code@, m),
        decreases code@.len() - k,
    {
        let last = offsets[k];
        match last.checked_add(code[k].size) {
            Some(o) => offsets.push(o),
            None => {
                proof {
                    lemma_offsets_grow(code@, k + 1, code@.len() as int);
                }
                return Err(ErrorKind::MalformedBytecode);
            },
        }
        k = k + 1;
    }
    let mut out: Vec<Instr> = Vec::new();
    let mut i: usize = 0;
    while i < code.len()
        invariant
            i <= code@.len(),
            offsets@.len() == code@.len() + 1,
            forall|m: int| 0 <= m <= code@.len() ==> offsets@[m] == offset_at(code@, m),
            out@.len() == i,
            forall|m: int| 0 <= m < i ==> decoded(code@, m) == Ok::<Instr, ErrorKind>(#[trigger] out@[m]),
        decreases code@.len() - i,
    {
        match decode_at(code, &offsets, i) {
            Ok(ins) => out.push(ins),
            Err(e) => return Err(e),
        }
        i = i + 1;
    }
    proof {
        assert forall|m: int| 0 <= m < code@.len() implies #[trigger] decoded(code@, m) is Ok by {
            assert(decoded(code@, m) == Ok::<Instr, ErrorKind>(out@[m]));
        }
        assert forall|m: int| 0 <= m < out@.len() implies match #[trigger] out@[m] {
            Instr::ForIter(t) | Instr::JumpIfTrue(t) | Instr::JumpIfFalse(t) | Instr::Jump(t)
            | Instr::SetupLoop(t) => t < out@.len(),
            _ => true,
        } by {
            lemma_translation_targets(code@, m);
        }
    }
    Ok(out)
}

/// Translation is deterministic: any two results that `convert` may give for
/// the same code unit are the same instruction sequence.
pub proof fn lemma_translation_deterministic(code: Seq<ForeignInstr>, a: Seq<Instr>, b: Seq<Instr>)
    requires
        a.len() == code.len(),
        b.len() == code.len(),
        forall|i: int| 0 <= i < code.len() ==> decoded(code, i) == Ok::<Instr, ErrorKind>(#[trigger] a[i]),
        forall|i: int| 0 <= i < code.len() ==> decoded(code, i) == Ok::<Instr, ErrorKind>(#[trigger] b[i]),
    ensures
        a == b,
{
    assert forall|i: int| 0 <= i < a.len() implies a[i] == b[i] by {
        assert(decoded(code, i) == Ok::<Instr, ErrorKind>(a[i]));
        assert(decoded(code, i) == Ok::<Instr, ErrorKind>(b[i]));
    }
    assert(a =~= b);
}

} // verus!
