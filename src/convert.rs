use std::collections::HashMap;
use vstd::prelude::*;
use vstd::string::StrSliceExecFns;
use vstd::pervasive::VecAdditionalExecFns;
use crate::frame::{lookup, pop2, same_but_stack, same_frame, slice_model, Frame, FrameModel, Signal};
use crate::translate::{convert, decoded, translatable, ForeignInstr, Instr};
use crate::value::{binary_result, unary_result, ErrorKind, Primitive, Value};

verus! {

broadcast use vstd::std_specs::hash::group_hash_axioms;

/// A constant as the external compiler hands it over. A code constant names a
/// unit loaded earlier, by the index that loading it returned.
pub enum Constant {
    Int(i64),
    Text(String),
    Bool(bool),
    NoneValue,
    Code(usize),
}

/// A code unit as the external compiler hands it over.
pub struct CodeUnit {
    pub instructions: Vec<ForeignInstr>,
    pub consts: Vec<Constant>,
    pub names: Vec<String>,
    pub varnames: Vec<String>,
}

/// A loaded code unit: translated instructions, constants as values, and
/// names as symbol numbers.
pub struct Unit {
    pub instrs: Vec<Instr>,
    pub consts: Vec<Value>,
    pub names: Vec<usize>,
    pub varnames: Vec<usize>,
}

/// What the primitives emit, in order.
#[derive(Clone, Copy, Debug, PartialEq, Eq, Structural)]
pub enum Emitted {
    Item(Value),
    Newline,
}

/// What one step of a frame asks of the run loop.
pub enum Outcome {
    Continue,
    Call(Frame),
    Returned,
}

/// Value `v` is what constant `c` loads as, over the text table `texts`.
pub open spec fn const_loaded(texts: Seq<String>, c: Constant, v: Value) -> bool {
    match c {
        Constant::Int(n) => v == Value::Int(n),
        Constant::Text(s) => v matches Value::Text(t) && t < texts.len() && texts[t as int]@ == s@,
        Constant::Bool(b) => v == Value::Bool(b),
        Constant::NoneValue => v == Value::NoneValue,
        Constant::Code(u) => v == Value::Code(u),
    }
}

/// A code constant names one of the first `n` units.
pub open spec fn codes_loaded(c: Constant, n: nat) -> bool {
    c matches Constant::Code(u) ==> u < n
}

/// Symbol number `k` is the name `name`.
pub open spec fn names_symbol(symbols: Seq<String>, name: String, k: usize) -> bool {
    k < symbols.len() && symbols[k as int]@ == name@
}

/// Symbol number of the name `print`.
pub const PRINT_SYMBOL: usize = 0;

/// Symbol number of the name `len`.
pub const LEN_SYMBOL: usize = 1;

/// The interpreter: loaded units, the symbol and text tables, the list heap,
/// what the primitives emitted, the suspended callers, and a step budget.
pub struct Converter {
    pub units: Vec<Unit>,
    pub symbols: Vec<String>,
    pub texts: Vec<String>,
    pub heap: Vec<Vec<Value>>,
    pub output: Vec<Emitted>,
    pub frames: Vec<Frame>,
    pub steps_left: u64,
}

/// `scope` with the first `n` names bound to the first `n` arguments.
pub open spec fn bind(scope: Map<usize, Value>, names: Seq<usize>, args: Seq<Value>, n: int) -> Map<
    usize,
    Value,
>
    decreases n,
{
    if n <= 0 {
        scope
    } else {
        bind(scope, names, args, n - 1).insert(names[n - 1], args[n - 1])
    }
}

/// The scope of a new frame: the enclosing scope, the arguments bound to
/// the declared local names, and the primitives.
pub open spec fn frame_scope(enclosing: Map<usize, Value>, names: Seq<usize>, args: Seq<Value>) -> Map<
    usize,
    Value,
> {
    let n = if names.len() < args.len() { names.len() } else { args.len() };
    bind(enclosing, names, args, n as int).insert(PRINT_SYMBOL, Value::Primitive(Primitive::Print)).insert(
        LEN_SYMBOL,
        Value::Primitive(Primitive::Len),
    )
}

/// The result of `==` between a deeper value `a` and a top value `b`.
pub open spec fn eq_result(texts: Seq<Seq<char>>, heap: Seq<Seq<Value>>, a: Value, b: Value) -> Result<
    Value,
    ErrorKind,
> {
    match (a, b) {
        (Value::Int(x), Value::Int(y)) => Ok(Value::Bool(x == y)),
        (Value::Bool(x), Value::Bool(y)) => Ok(Value::Bool(x == y)),
        (Value::Text(x), Value::Text(y)) => if x < texts.len() && y < texts.len() {
            Ok(Value::Bool(texts[x as int] == texts[y as int]))
        } else {
            Err(ErrorKind::MalformedBytecode)
        },
        (Value::List(x), Value::List(y)) => if x < heap.len() && y < heap.len() {
            match seq_eq(texts, heap, heap[x as int], heap[y as int], EQ_DEPTH as nat) {
                Ok(b) => Ok(Value::Bool(b)),
                Err(e) => Err(e),
            }
        } else {
            Err(ErrorKind::MalformedBytecode)
        },
        _ => Err(ErrorKind::TypeMismatch),
    }
}

/// Equality of element sequences fails only on a dangling index or on
/// nesting that is too deep.
pub proof fn lemma_seq_eq_errors(texts: Seq<Seq<char>>, heap: Seq<Seq<Value>>, a: Seq<Value>, b: Seq<Value>, depth: nat)
    ensures
        seq_eq(texts, heap, a, b, depth) matches Err(e) ==> e == ErrorKind::MalformedBytecode || e
            == ErrorKind::TooDeep,
    decreases depth, a.len(),
{
    if a.len() == b.len() && a.len() > 0 {
        if let (Value::List(x), Value::List(y)) = (a[0], b[0]) {
            if depth > 0 && x < heap.len() && y < heap.len() {
                lemma_seq_eq_errors(texts, heap, heap[x as int], heap[y as int], (depth - 1) as nat);
            }
        }
        lemma_seq_eq_errors(texts, heap, a.drop_first(), b.drop_first(), depth);
    }
}

/// How many levels of nested lists an equality test descends into.
pub const EQ_DEPTH: u64 = 64;

/// Structural equality of two element sequences: texts by content, nested
/// lists by their elements, everything else by value. Nesting deeper than
/// `depth` (such as a list that holds itself) is `TooDeep`; the first
/// unequal pair decides.
pub open spec fn seq_eq(texts: Seq<Seq<char>>, heap: Seq<Seq<Value>>, a: Seq<Value>, b: Seq<Value>, depth: nat) -> Result<
    bool,
    ErrorKind,
>
    decreases depth, a.len(),
{
    if a.len() != b.len() {
        Ok(false)
    } else if a.len() == 0 {
        Ok(true)
    } else {
        let first = match (a[0], b[0]) {
            (Value::Text(x), Value::Text(y)) => if x < texts.len() && y < texts.len() {
                Ok(texts[x as int] == texts[y as int])
            } else {
                Err(ErrorKind::MalformedBytecode)
            },
            (Value::List(x), Value::List(y)) => if depth == 0 {
                Err(ErrorKind::TooDeep)
            } else if x < heap.len() && y < heap.len() {
                seq_eq(texts, heap, heap[x as int], heap[y as int], (depth - 1) as nat)
            } else {
                Err(ErrorKind::MalformedBytecode)
            },
            _ => Ok(a[0] == b[0]),
        };
        match first {
            Err(e) => Err(e),
            Ok(false) => Ok(false),
            Ok(true) => seq_eq(texts, heap, a.drop_first(), b.drop_first(), depth),
        }
    }
}

/// The result of comparison operator number `op` between a deeper value `a`
/// and a top value `b`: number 2 is `==`, number 4 is `>`.
pub open spec fn compare_result(texts: Seq<Seq<char>>, heap: Seq<Seq<Value>>, op: usize, a: Value, b: Value) -> Result<
    Value,
    ErrorKind,
> {
    if op == 2 {
        eq_result(texts, heap, a, b)
    } else if op == 4 {
        match (a, b) {
            (Value::Int(x), Value::Int(y)) => Ok(Value::Bool(x > y)),
            _ => Err(ErrorKind::TypeMismatch),
        }
    } else {
        Err(ErrorKind::UnsupportedInstruction)
    }
}

/// Whether an instruction may move execution anywhere but to the next one.
pub open spec fn is_control(i: Instr) -> bool {
    match i {
        Instr::Jump(_) | Instr::JumpIfTrue(_) | Instr::JumpIfFalse(_) | Instr::ForIter(_)
        | Instr::Break | Instr::Return => true,
        _ => false,
    }
}

/// The instruction that a frame is about to execute.
pub open spec fn instr_at(units: Seq<Unit>, f: &Frame) -> Option<Instr> {
    if f.unit < units.len() && f.pc < units[f.unit as int].instrs@.len() {
        Some(units[f.unit as int].instrs@[f.pc as int])
    } else {
        None
    }
}

pub open spec fn text_views(texts: Seq<String>) -> Seq<Seq<char>> {
    texts.map_values(|t: String| t@)
}

pub open spec fn heap_view(heap: Seq<Vec<Value>>) -> Seq<Seq<Value>> {
    heap.map_values(|l: Vec<Value>| l@)
}


/// The output after a primitive ran on `args`.
pub open spec fn primitive_output(out: Seq<Emitted>, p: Primitive, args: Seq<Value>) -> Seq<Emitted> {
    if p == Primitive::Print {
        out + args.map_values(|v: Value| Emitted::Item(v)).push(Emitted::Newline)
    } else {
        out
    }
}

/// What one step does, as mathematical values.
pub enum StepModel {
    /// The run fails.
    Fail(ErrorKind),
    /// The frame goes on, with this heap and output.
    Next(Seq<Seq<Value>>, Seq<Emitted>, FrameModel),
    /// A call: the caller as it waits, and the callee's new frame.
    Enter(FrameModel, FrameModel),
    /// The frame returned.
    Done(FrameModel),
}

pub open spec fn with_stack(f: FrameModel, s: Seq<Value>) -> FrameModel {
    FrameModel { stack: s, ..f }
}

/// A name lookup by entry `i` of `table`.
pub open spec fn load_model(f: FrameModel, table: Seq<usize>, i: usize, global_only: bool) -> Result<FrameModel, ErrorKind> {
    if i >= table.len() {
        Err(ErrorKind::MalformedBytecode)
    } else {
        let name = table[i as int];
        let found = if global_only {
            if f.globals.contains_key(name) { Some(f.globals[name]) } else { None }
        } else {
            lookup(f.locals, f.globals, name)
        };
        match found {
            Some(v) => Ok(with_stack(f, f.stack.push(v))),
            None => Err(ErrorKind::UnboundName),
        }
    }
}

/// A call with `pos` positional and `kw` keyword arguments.
pub open spec fn call_model(units: Seq<Unit>, texts: Seq<Seq<char>>, heap: Seq<Seq<Value>>, out: Seq<Emitted>, f: FrameModel, pos: usize, kw: usize) -> StepModel {
    let s = f.stack;
    let n = s.len() as int;
    if n < 2 * kw + pos + 1 {
        StepModel::Fail(ErrorKind::StackUnderflow)
    } else if !keys_are_text(s, kw as int) {
        StepModel::Fail(ErrorKind::TypeMismatch)
    } else {
        let base = n - 2 * kw - pos;
        let args = s.subrange(base, base + pos);
        let rest = s.subrange(0, base - 1);
        match s[base - 1] {
            Value::Function(u) => if u < units.len() && units[u as int].instrs@.len() > 0 {
                let scope = frame_scope(f.locals, units[u as int].varnames@, args);
                StepModel::Enter(
                    with_stack(f, rest),
                    FrameModel {
                        unit: u,
                        stack: Seq::empty(),
                        locals: scope,
                        globals: scope,
                        blocks: Seq::empty(),
                        pc: 0,
                        ret: Value::NoneValue,
                        signal: Signal::Idle,
                    },
                )
            } else {
                StepModel::Fail(ErrorKind::MalformedBytecode)
            },
            Value::Primitive(p) => match primitive_result(texts, heap, p, args) {
                Ok(v) => StepModel::Next(heap, primitive_output(out, p, args), with_stack(f, rest.push(v))),
                Err(e) => StepModel::Fail(e),
            },
            _ => StepModel::Fail(ErrorKind::UnsupportedInstruction),
        }
    }
}

/// One step of frame `f`: the instruction at its pointer runs with the
/// pointer already past it.
pub open spec fn step_model(units: Seq<Unit>, texts: Seq<Seq<char>>, heap: Seq<Seq<Value>>, out: Seq<Emitted>, f: FrameModel) -> StepModel {
    if !(f.unit < units.len() && f.pc < units[f.unit as int].instrs@.len()) {
        StepModel::Fail(ErrorKind::MalformedBytecode)
    } else {
        let unit = units[f.unit as int];
        let g = FrameModel { pc: (f.pc + 1) as usize, ..f };
        let s = f.stack;
        let n = s.len();
        let next = |h: FrameModel| StepModel::Next(heap, out, h);
        let lift = |r: Result<FrameModel, ErrorKind>| match r {
            Ok(h) => StepModel::Next(heap, out, h),
            Err(e) => StepModel::Fail(e),
        };
        match unit.instrs@[f.pc as int] {
            Instr::LoadConst(i) => if i < unit.consts@.len() {
                next(with_stack(g, s.push(unit.consts@[i as int])))
            } else {
                StepModel::Fail(ErrorKind::MalformedBytecode)
            },
            Instr::Pop => if n > 0 { next(with_stack(g, s.drop_last())) } else { StepModel::Fail(ErrorKind::StackUnderflow) },
            Instr::LoadFast(i) => lift(load_model(g, unit.varnames@, i, false)),
            Instr::LoadName(i) => lift(load_model(g, unit.names@, i, false)),
            Instr::LoadGlobal(i) => lift(load_model(g, unit.names@, i, true)),
            Instr::StoreName(i) => if i >= unit.names@.len() {
                StepModel::Fail(ErrorKind::MalformedBytecode)
            } else if n == 0 {
                StepModel::Fail(ErrorKind::StackUnderflow)
            } else {
                next(FrameModel { stack: s.drop_last(), locals: g.locals.insert(unit.names@[i as int], s.last()), ..g })
            },
            Instr::BuildList(k) => if k > n {
                StepModel::Fail(ErrorKind::StackUnderflow)
            } else {
                StepModel::Next(
                    heap.push(s.subrange(n - k, n as int)),
                    out,
                    with_stack(g, s.subrange(0, n - k).push(Value::List(heap.len() as usize))),
                )
            },
            Instr::BuildSlice(k) => match slice_model(s, k) {
                Ok(s2) => next(with_stack(g, s2)),
                Err(e) => StepModel::Fail(e),
            },
            Instr::GetIter => if n == 0 {
                StepModel::Fail(ErrorKind::StackUnderflow)
            } else {
                match s.last() {
                    Value::List(h) => next(with_stack(g, s.drop_last().push(Value::Iter(h, 0)))),
                    _ => StepModel::Fail(ErrorKind::TypeMismatch),
                }
            },
            Instr::ForIter(t) => if n == 0 {
                StepModel::Fail(ErrorKind::StackUnderflow)
            } else {
                match s.last() {
                    Value::Iter(h, p) => if h >= heap.len() {
                        StepModel::Fail(ErrorKind::MalformedBytecode)
                    } else if p < heap[h as int].len() {
                        next(with_stack(g, s.drop_last().push(Value::Iter(h, (p + 1) as usize)).push(heap[h as int][p as int])))
                    } else {
                        next(FrameModel { stack: s.drop_last(), pc: t, ..g })
                    },
                    _ => StepModel::Fail(ErrorKind::TypeMismatch),
                }
            },
            Instr::Compare(op) => if n < 2 {
                StepModel::Fail(ErrorKind::StackUnderflow)
            } else {
                match compare_result(texts, heap, op, s[n - 2], s.last()) {
                    Ok(v) => next(with_stack(g, pop2(s).push(v))),
                    Err(e) => StepModel::Fail(e),
                }
            },
            Instr::JumpIfTrue(t) => if n == 0 {
                StepModel::Fail(ErrorKind::StackUnderflow)
            } else {
                next(FrameModel { stack: s.drop_last(), pc: if s.last() == Value::Bool(true) { t } else { g.pc }, ..g })
            },
            Instr::JumpIfFalse(t) => if n == 0 {
                StepModel::Fail(ErrorKind::StackUnderflow)
            } else {
                next(FrameModel { stack: s.drop_last(), pc: if s.last() == Value::Bool(false) { t } else { g.pc }, ..g })
            },
            Instr::Jump(t) => next(FrameModel { pc: t, ..g }),
            Instr::Break => if f.blocks.len() > 0 {
                next(FrameModel { pc: f.blocks.last(), blocks: f.blocks.drop_last(), signal: Signal::Idle, ..g })
            } else {
                StepModel::Fail(ErrorKind::MalformedBytecode)
            },
            Instr::Raise(k) => if k != 1 {
                StepModel::Fail(ErrorKind::UnsupportedInstruction)
            } else if n == 0 {
                StepModel::Fail(ErrorKind::StackUnderflow)
            } else {
                StepModel::Fail(ErrorKind::UserRaise(s.last()))
            },
            Instr::StoreSubscr => if n < 3 {
                StepModel::Fail(ErrorKind::StackUnderflow)
            } else {
                match (s[n - 2], s[n - 1]) {
                    (Value::List(h), Value::Int(i)) => if h >= heap.len() {
                        StepModel::Fail(ErrorKind::MalformedBytecode)
                    } else if 0 <= i < heap[h as int].len() {
                        StepModel::Next(
                            heap.update(h as int, heap[h as int].update(i as int, s[n - 3])),
                            out,
                            with_stack(g, s.subrange(0, n - 3)),
                        )
                    } else {
                        StepModel::Fail(ErrorKind::IndexOutOfRange)
                    },
                    _ => StepModel::Fail(ErrorKind::TypeMismatch),
                }
            },
            Instr::Binary(op) => if n < 2 {
                StepModel::Fail(ErrorKind::StackUnderflow)
            } else {
                match binary_result(op, s[n - 2], s.last()) {
                    Ok(v) => next(with_stack(g, pop2(s).push(v))),
                    Err(e) => StepModel::Fail(e),
                }
            },
            Instr::RotTwo => if n < 2 {
                StepModel::Fail(ErrorKind::StackUnderflow)
            } else {
                next(with_stack(g, pop2(s).push(s.last()).push(s[n - 2])))
            },
            Instr::Unary(op) => if n == 0 {
                StepModel::Fail(ErrorKind::StackUnderflow)
            } else {
                match unary_result(op, s.last()) {
                    Ok(v) => next(with_stack(g, s.drop_last().push(v))),
                    Err(e) => StepModel::Fail(e),
                }
            },
            Instr::PrintItem => if n == 0 {
                StepModel::Fail(ErrorKind::StackUnderflow)
            } else {
                StepModel::Next(heap, out.push(Emitted::Item(s.last())), with_stack(g, s.drop_last()))
            },
            Instr::PrintNewline => StepModel::Next(heap, out.push(Emitted::Newline), g),
            Instr::MakeFunction => if n < 2 {
                StepModel::Fail(ErrorKind::StackUnderflow)
            } else {
                match s[n - 2] {
                    Value::Code(u) => next(with_stack(g, pop2(s).push(Value::Function(u)))),
                    _ => StepModel::Fail(ErrorKind::TypeMismatch),
                }
            },
            Instr::Call(pos, kw) => call_model(units, texts, heap, out, g, pos, kw),
            Instr::Return => if n == 0 {
                StepModel::Fail(ErrorKind::StackUnderflow)
            } else {
                StepModel::Done(FrameModel { stack: s.drop_last(), ret: s.last(), signal: Signal::Return, ..g })
            },
            Instr::SetupLoop(t) => next(FrameModel { blocks: f.blocks.push(t), ..g }),
            Instr::PopBlock => next(FrameModel { blocks: if f.blocks.len() > 0 { f.blocks.drop_last() } else { f.blocks }, ..g }),
            Instr::Nop => next(g),
            Instr::Unsupported => StepModel::Fail(ErrorKind::UnsupportedInstruction),
        }
    }
}

/// A run of frame `f`, with `callers` waiting below it, for at most `fuel`
/// steps: the result, and the heap and output it leaves. A frame that
/// returns hands its return slot to the caller's stack; the result of the
/// run is the return slot of the frame that returns with no caller left.
pub open spec fn exec(units: Seq<Unit>, texts: Seq<Seq<char>>, heap: Seq<Seq<Value>>, out: Seq<Emitted>, f: FrameModel, callers: Seq<FrameModel>, fuel: nat) -> (
    Result<Value, ErrorKind>,
    Seq<Seq<Value>>,
    Seq<Emitted>,
)
    decreases fuel,
{
    if fuel == 0 {
        (Err(ErrorKind::StepLimit), heap, out)
    } else {
        match step_model(units, texts, heap, out, f) {
            StepModel::Fail(e) => (Err(e), heap, out),
            StepModel::Next(h, o, g) => exec(units, texts, h, o, g, callers, (fuel - 1) as nat),
            StepModel::Enter(c, callee) => exec(units, texts, heap, out, callee, callers.push(c), (fuel - 1) as nat),
            StepModel::Done(g) => if callers.len() == 0 {
                (Ok(g.ret), heap, out)
            } else {
                let c = callers.last();
                exec(units, texts, heap, out, with_stack(c, c.stack.push(g.ret)), callers.drop_last(), (fuel - 1) as nat)
            },
        }
    }
}

/// The frame in which a loaded unit starts: no arguments, no enclosing scope.
pub open spec fn entry_frame(units: Seq<Unit>, u: usize) -> FrameModel {
    let scope = frame_scope(Map::empty(), units[u as int].varnames@, Seq::empty());
    FrameModel {
        unit: u,
        stack: Seq::empty(),
        locals: scope,
        globals: scope,
        blocks: Seq::empty(),
        pc: 0,
        ret: Value::NoneValue,
        signal: Signal::Idle,
    }
}

pub open spec fn frames_model(frames: Seq<Frame>) -> Seq<FrameModel> {
    frames.map_values(|f: Frame| f@)
}

impl Converter {
    pub open spec fn texts_view(&self) -> Seq<Seq<char>> {
        text_views(self.texts@)
    }

    pub open spec fn heap_view(&self) -> Seq<Seq<Value>> {
        heap_view(self.heap@)
    }

    /// An interpreter with nothing loaded, whose symbol table starts with the
    /// names of the primitives.
    pub fn new() -> (c: Converter)
        ensures
            c.units@.len() == 0,
            c.symbols@.len() == 2,
            c.symbols@[PRINT_SYMBOL as int]@ == "print"@,
            c.symbols@[LEN_SYMBOL as int]@ == "len"@,
            c.texts@.len() == 0,
            c.heap@.len() == 0,
            c.output@.len() == 0,
            c.frames@.len() == 0,
            c.steps_left == u64::MAX,
    {
        let mut symbols: Vec<String> = Vec::new();
        symbols.push(<String as vstd::string::StringExecFns>::from_str("print"));
        symbols.push(<String as vstd::string::StringExecFns>::from_str("len"));
        Converter {
            units: Vec::new(),
            symbols,
            texts: Vec::new(),
            heap: Vec::new(),
            output: Vec::new(),
            frames: Vec::new(),
            steps_left: u64::MAX,
        }
    }

    /// The number of a string in a table, added at the end if absent; the
    /// first equal entry wins.
    fn intern(table: &mut Vec<String>, s: &String) -> (r: usize)
        ensures
            r < final(table)@.len(),
            final(table)@[r as int]@ == s@,
            forall|j: int| 0 <= j < r ==> final(table)@[j]@ != s@,
            r < old(table)@.len() ==> final(table)@ == old(table)@,
            r >= old(table)@.len() ==> r == old(table)@.len() && final(table)@.len() == r + 1
                && final(table)@.subrange(0, r as int) == old(table)@,
            final(table)@.len() >= old(table)@.len(),
            forall|j: int| 0 <= j < old(table)@.len() ==> #[trigger] final(table)@[j] == old(table)@[j],
    {
        let mut i: usize = 0;
        while i < table.len()
            invariant
                i <= table@.len(),
                table@ == old(table)@,
                forall|j: int| 0 <= j < i ==> table@[j]@ != s@,
            decreases table@.len() - i,
        {
            if table[i] == *s {
                return i;
            }
            i = i + 1;
        }
        table.push(s.clone());
        assert(table@.subrange(0, i as int) =~= old(table)@);
        i
    }

    /// Translates a code unit and adds it to the loaded units; returns its
    /// number. Fails with `MalformedBytecode` where the instructions cannot be
    /// translated or a code constant names no loaded unit.
    pub fn load_unit(&mut self, code: &CodeUnit) -> (r: Result<usize, ErrorKind>)
        ensures
            r matches Ok(u) ==> {
                &&& translatable(code.instructions@)
                &&& u == old(self).units@.len()
                &&& final(self).units@.len() == u + 1
                &&& final(self).units@.subrange(0, u as int) == old(self).units@
                &&& final(self).units@[u as int].instrs@.len() == code.instructions@.len()
                &&& forall|i: int|
                    0 <= i < code.instructions@.len() ==> decoded(code.instructions@, i) == Ok::<
                        Instr,
                        ErrorKind,
                    >(#[trigger] final(self).units@[u as int].instrs@[i])
                &&& final(self).units@[u as int].consts@.len() == code.consts@.len()
                &&& final(self).units@[u as int].names@.len() == code.names@.len()
                &&& final(self).units@[u as int].varnames@.len() == code.varnames@.len()
                &&& forall|i: int| 0 <= i < code.consts@.len() ==> const_loaded(
                    final(self).texts@,
                    #[trigger] code.consts@[i],
                    final(self).units@[u as int].consts@[i],
                )
                &&& forall|i: int| 0 <= i < code.names@.len() ==> names_symbol(
                    final(self).symbols@,
                    #[trigger] code.names@[i],
                    final(self).units@[u as int].names@[i],
                )
                &&& forall|i: int| 0 <= i < code.varnames@.len() ==> names_symbol(
                    final(self).symbols@,
                    #[trigger] code.varnames@[i],
                    final(self).units@[u as int].varnames@[i],
                )
            },
            translatable(code.instructions@) && (forall|i: int| 0 <= i < code.consts@.len() ==> codes_loaded(
                #[trigger] code.consts@[i],
                old(self).units@.len(),
            )) ==> r is Ok,
            r matches Err(e) ==> e == ErrorKind::MalformedBytecode,
            !translatable(code.instructions@) ==> r is Err,
            final(self).heap@ == old(self).heap@,
            final(self).output@ == old(self).output@,
            final(self).frames@ == old(self).frames@,
            final(self).steps_left == old(self).steps_left,
    {
        let instrs = convert(&code.instructions)?;
        let mut consts: Vec<Value> = Vec::new();
        let mut i: usize = 0;
        while i < code.consts.len()
            invariant
                i <= code.consts@.len(),
                consts@.len() == i,
                forall|j: int| 0 <= j < i ==> const_loaded(self.texts@, #[trigger] code.consts@[j], consts@[j]),
                self.units@ == old(self).units@,
                self.heap@ == old(self).heap@,
                self.output@ == old(self).output@,
                self.frames@ == old(self).frames@,
                self.steps_left == old(self).steps_left,
            decreases code.consts@.len() - i,
        {
            let ghost before = self.texts@;
            let v = match &code.consts[i] {
                Constant::Int(n) => Value::Int(*n),
                Constant::Text(s) => Value::Text(Self::intern(&mut self.texts, s)),
                Constant::Bool(b) => Value::Bool(*b),
                Constant::NoneValue => Value::NoneValue,
                Constant::Code(u) => {
                    if *u >= self.units.len() {
                        assert(!codes_loaded(code.consts@[i as int], old(self).units@.len()));
                        return Err(ErrorKind::MalformedBytecode);
                    }
                    Value::Code(*u)
                },
            };
            consts.push(v);
            assert forall|j: int| 0 <= j < i implies const_loaded(self.texts@, #[trigger] code.consts@[j], consts@[j]) by {
                assert(const_loaded(before, code.consts@[j], consts@[j]));
            }
            i = i + 1;
        }
        let mut names: Vec<usize> = Vec::new();
        let mut i: usize = 0;
        while i < code.names.len()
            invariant
                i <= code.names@.len(),
                names@.len() == i,
                forall|j: int| 0 <= j < code.consts@.len() ==> const_loaded(self.texts@, #[trigger] code.consts@[j], consts@[j]),
                consts@.len() == code.consts@.len(),
                forall|j: int| 0 <= j < i ==> names_symbol(self.symbols@, #[trigger] code.names@[j], names@[j]),
                self.units@ == old(self).units@,
                self.heap@ == old(self).heap@,
                self.output@ == old(self).output@,
                self.frames@ == old(self).frames@,
                self.steps_left == old(self).steps_left,
            decreases code.names@.len() - i,
        {
            let ghost before = self.symbols@;
            names.push(Self::intern(&mut self.symbols, &code.names[i]));
            assert forall|j: int| 0 <= j < i implies names_symbol(self.symbols@, #[trigger] code.names@[j], names@[j]) by {
                assert(names_symbol(before, code.names@[j], names@[j]));
            }
            i = i + 1;
        }
        let mut varnames: Vec<usize> = Vec::new();
        let mut i: usize = 0;
        while i < code.varnames.len()
            invariant
                i <= code.varnames@.len(),
                varnames@.len() == i,
                forall|j: int| 0 <= j < code.consts@.len() ==> const_loaded(self.texts@, #[trigger] code.consts@[j], consts@[j]),
                consts@.len() == code.consts@.len(),
                names@.len() == code.names@.len(),
                forall|j: int| 0 <= j < code.names@.len() ==> names_symbol(self.symbols@, #[trigger] code.names@[j], names@[j]),
                forall|j: int| 0 <= j < i ==> names_symbol(self.symbols@, #[trigger] code.varnames@[j], varnames@[j]),
                self.units@ == old(self).units@,
                self.heap@ == old(self).heap@,
                self.output@ == old(self).output@,
                self.frames@ == old(self).frames@,
                self.steps_left == old(self).steps_left,
            decreases code.varnames@.len() - i,
        {
            let ghost before = self.symbols@;
            varnames.push(Self::intern(&mut self.symbols, &code.varnames[i]));
            assert forall|j: int| 0 <= j < code.names@.len() implies names_symbol(self.symbols@, #[trigger] code.names@[j], names@[j]) by {
                assert(names_symbol(before, code.names@[j], names@[j]));
            }
            assert forall|j: int| 0 <= j < i implies names_symbol(self.symbols@, #[trigger] code.varnames@[j], varnames@[j]) by {
                assert(names_symbol(before, code.varnames@[j], varnames@[j]));
            }
            i = i + 1;
        }
        let u = self.units.len();
        self.units.push(Unit { instrs, consts, names, varnames });
        assert(self.units@.subrange(0, u as int) =~= old(self).units@);
        Ok(u)
    }

    /// A new frame for unit `u`: the enclosing scope, overlaid with the
    /// arguments bound to the unit's local names in order, and the primitives.
    pub fn make_frame(&self, u: usize, args: &Vec<Value>, enclosing: HashMap<usize, Value>) -> (r: Result<
        Frame,
        ErrorKind,
    >)
        ensures
            u >= self.units@.len() || self.units@[u as int].instrs@.len() == 0 ==> r == Err::<
                Frame,
                ErrorKind,
            >(ErrorKind::MalformedBytecode),
            u < self.units@.len() && self.units@[u as int].instrs@.len() > 0 ==> (r matches Ok(f) && {
                let scope = frame_scope(enclosing@, self.units@[u as int].varnames@, args@);
                &&& f.unit == u
                &&& f.locals@ == scope
                &&& f.globals@ == scope
                &&& f.stack@ == Seq::<Value>::empty()
                &&& f.blocks@ == Seq::<usize>::empty()
                &&& f.pc == 0
                &&& f.ret == Value::NoneValue
                &&& f.signal == Signal::Idle
            }),
    {
        if u >= self.units.len() || self.units[u].instrs.len() == 0 {
            return Err(ErrorKind::MalformedBytecode);
        }
        let names = &self.units[u].varnames;
        let n = if names.len() < args.len() { names.len() } else { args.len() };
        let mut scope = enclosing;
        let mut i: usize = 0;
        while i < n
            invariant
                i <= n,
                n <= names@.len(),
                n <= args@.len(),
                scope@ == bind(enclosing@, names@, args@, i as int),
            decreases n - i,
        {
            scope.insert(names[i], args[i]);
            i = i + 1;
        }
        scope.insert(PRINT_SYMBOL, Value::Primitive(Primitive::Print));
        scope.insert(LEN_SYMBOL, Value::Primitive(Primitive::Len));
        Ok(Frame::new(u, scope))
    }
}


/// The parts of the interpreter that only loading changes.
pub open spec fn keeps(a: &Converter, b: &Converter) -> bool {
    &&& a.units@ == b.units@
    &&& a.symbols@ == b.symbols@
    &&& a.texts@ == b.texts@
    &&& a.frames@ == b.frames@
    &&& a.steps_left == b.steps_left
}

/// The number of elements of a list or characters of a text.
pub open spec fn len_result(texts: Seq<Seq<char>>, heap: Seq<Seq<Value>>, v: Value) -> Result<Value, ErrorKind> {
    let n = match v {
        Value::List(h) => if h < heap.len() { heap[h as int].len() as int } else { -1 },
        Value::Text(t) => if t < texts.len() { texts[t as int].len() as int } else { -1 },
        _ => -2,
    };
    if n == -2 {
        Err(ErrorKind::TypeMismatch)
    } else if n == -1 {
        Err(ErrorKind::MalformedBytecode)
    } else if n > i64::MAX {
        Err(ErrorKind::ArithmeticError)
    } else {
        Ok(Value::Int(n as i64))
    }
}

/// Whether the `kw` keyword pairs below the top of `s` all have a text key.
pub open spec fn keys_are_text(s: Seq<Value>, kw: int) -> bool {
    forall|j: int| 0 <= j < kw ==> (#[trigger] s[s.len() - 2 * kw + 2 * j]) is Text
}

impl Converter {
    /// Pushes constant number `i` of the frame's unit.
    pub fn load_const(&self, frame: &mut Frame, i: usize) -> (r: Result<(), ErrorKind>)
        ensures
            same_but_stack(final(frame), old(frame)),
            ({
                let u = old(frame).unit as int;
                if u < self.units@.len() && i < self.units@[u].consts@.len() {
                    r is Ok && final(frame).stack@ == old(frame).stack@.push(self.units@[u].consts@[i as int])
                } else {
                    r == Err::<(), ErrorKind>(ErrorKind::MalformedBytecode) && final(frame).stack@ == old(frame).stack@
                }
            }),
    {
        let u = frame.unit;
        if u >= self.units.len() || i >= self.units[u].consts.len() {
            return Err(ErrorKind::MalformedBytecode);
        }
        frame.stack.push(self.units[u].consts[i]);
        Ok(())
    }

    /// The symbol of name-table entry `i` of the frame's unit, or of its
    /// local-name table when `local` holds.
    pub fn name_at(&self, frame: &Frame, i: usize, local: bool) -> (r: Result<usize, ErrorKind>)
        ensures
            ({
                let u = frame.unit as int;
                let table = if u < self.units@.len() {
                    if local { self.units@[u].varnames@ } else { self.units@[u].names@ }
                } else {
                    Seq::<usize>::empty()
                };
                if i < table.len() {
                    r == Ok::<usize, ErrorKind>(table[i as int])
                } else {
                    r == Err::<usize, ErrorKind>(ErrorKind::MalformedBytecode)
                }
            }),
    {
        let u = frame.unit;
        if u >= self.units.len() {
            return Err(ErrorKind::MalformedBytecode);
        }
        let table = if local { &self.units[u].varnames } else { &self.units[u].names };
        if i >= table.len() {
            return Err(ErrorKind::MalformedBytecode);
        }
        Ok(table[i])
    }

    /// Replaces the `n` top elements by a new list holding them in order.
    pub fn build_list(&mut self, frame: &mut Frame, n: usize) -> (r: Result<(), ErrorKind>)
        ensures
            same_but_stack(final(frame), old(frame)),
            keeps(final(self), old(self)),
            final(self).output@ == old(self).output@,
            n > old(frame).stack@.len() ==> r == Err::<(), ErrorKind>(ErrorKind::StackUnderflow)
                && final(frame).stack@ == old(frame).stack@ && final(self).heap@ == old(self).heap@,
            n <= old(frame).stack@.len() ==> {
                let s = old(frame).stack@;
                let h = old(self).heap@.len();
                &&& r is Ok
                &&& final(self).heap@.len() == h + 1
                &&& final(self).heap@.subrange(0, h as int) == old(self).heap@
                &&& final(self).heap@[h as int]@ == s.subrange(s.len() - n, s.len() as int)
                &&& final(self).heap_view() == old(self).heap_view().push(s.subrange(s.len() - n, s.len() as int))
                &&& final(frame).stack@ == s.subrange(0, s.len() - n).push(Value::List(h as usize))
            },
    {
        let len = frame.stack.len();
        if n > len {
            return Err(ErrorKind::StackUnderflow);
        }
        let mut items: Vec<Value> = Vec::new();
        let mut k: usize = len - n;
        while k < len
            invariant
                n <= len,
                len - n <= k <= len,
                len == frame.stack@.len(),
                frame.stack@ == old(frame).stack@,
                items@ == old(frame).stack@.subrange(len - n, k as int),
            decreases len - k,
        {
            items.push(frame.stack[k]);
            assert(items@ =~= old(frame).stack@.subrange(len - n, k + 1));
            k = k + 1;
        }
        frame.stack.truncate(len - n);
        let h = self.heap.len();
        self.heap.push(items);
        frame.stack.push(Value::List(h));
        assert(self.heap@.subrange(0, h as int) =~= old(self).heap@);
        assert(self.heap_view() =~= old(self).heap_view().push(old(frame).stack@.subrange(len - n, len as int)));
        Ok(())
    }

    /// Assigns into a list: pops the index (top), the receiver and the value.
    /// Only a list receiver with an integer index in range is accepted; on
    /// failure neither the stack nor the heap changes.
    pub fn store_subscr(&mut self, frame: &mut Frame) -> (r: Result<(), ErrorKind>)
        ensures
            same_but_stack(final(frame), old(frame)),
            keeps(final(self), old(self)),
            final(self).output@ == old(self).output@,
            r is Err ==> final(frame).stack@ == old(frame).stack@ && final(self).heap@ == old(self).heap@,
            old(frame).stack@.len() < 3 ==> r == Err::<(), ErrorKind>(ErrorKind::StackUnderflow),
            old(frame).stack@.len() >= 3 ==> {
                let s = old(frame).stack@;
                let n = s.len();
                match (s[n - 2], s[n - 1]) {
                    (Value::List(h), Value::Int(i)) => if h >= old(self).heap@.len() {
                        r == Err::<(), ErrorKind>(ErrorKind::MalformedBytecode)
                    } else if 0 <= i < old(self).heap@[h as int]@.len() {
                        &&& r is Ok
                        &&& final(frame).stack@ == s.subrange(0, n - 3)
                        &&& final(self).heap@.len() == old(self).heap@.len()
                        &&& forall|k: int| 0 <= k < old(self).heap@.len() && k != h ==> #[trigger] final(self).heap@[k] == old(self).heap@[k]
                        &&& final(self).heap@[h as int]@ == old(self).heap@[h as int]@.update(i as int, s[n - 3])
                        &&& final(self).heap_view() == old(self).heap_view().update(
                            h as int,
                            old(self).heap_view()[h as int].update(i as int, s[n - 3]),
                        )
                    } else {
                        r == Err::<(), ErrorKind>(ErrorKind::IndexOutOfRange)
                    },
                    _ => r == Err::<(), ErrorKind>(ErrorKind::TypeMismatch),
                }
            },
    {
        let n = frame.stack.len();
        if n < 3 {
            return Err(ErrorKind::StackUnderflow);
        }
        let value = frame.stack[n - 3];
        match (frame.stack[n - 2], frame.stack[n - 1]) {
            (Value::List(h), Value::Int(i)) => {
                if h >= self.heap.len() {
                    return Err(ErrorKind::MalformedBytecode);
                }
                if i < 0 {
                    return Err(ErrorKind::IndexOutOfRange);
                }
                if i as u64 >= self.heap[h].len() as u64 {
                    return Err(ErrorKind::IndexOutOfRange);
                }
                let idx = i as usize;
                let mut list: Vec<Value> = Vec::new();
                self.heap.set_and_swap(h, &mut list);
                list.set(idx, value);
                self.heap.set_and_swap(h, &mut list);
                assert(self.heap_view() =~= old(self).heap_view().update(
                    h as int,
                    old(self).heap_view()[h as int].update(i as int, value),
                ));
                frame.stack.truncate(n - 3);
                Ok(())
            },
            _ => Err(ErrorKind::TypeMismatch),
        }
    }
}

impl Converter {
    /// Replaces a list on top of the stack by an iterator at its start.
    pub fn get_iter(&self, frame: &mut Frame) -> (r: Result<(), ErrorKind>)
        ensures
            same_but_stack(final(frame), old(frame)),
            old(frame).stack@.len() == 0 ==> r == Err::<(), ErrorKind>(ErrorKind::StackUnderflow)
                && final(frame).stack@ == old(frame).stack@,
            old(frame).stack@.len() > 0 ==> match old(frame).stack@.last() {
                Value::List(h) => r is Ok && final(frame).stack@ == old(frame).stack@.drop_last().push(
                    Value::Iter(h, 0),
                ),
                _ => r == Err::<(), ErrorKind>(ErrorKind::TypeMismatch) && final(frame).stack@ == old(frame).stack@,
            },
    {
        let n = frame.stack.len();
        if n == 0 {
            return Err(ErrorKind::StackUnderflow);
        }
        match frame.stack[n - 1] {
            Value::List(h) => {
                frame.stack.pop();
                frame.stack.push(Value::Iter(h, 0));
                Ok(())
            },
            _ => Err(ErrorKind::TypeMismatch),
        }
    }

    /// Advances the iterator on top of the stack: pushes its next element, or,
    /// once it is exhausted, pops it and jumps to `exit`.
    pub fn for_iter(&self, frame: &mut Frame, exit: usize) -> (r: Result<(), ErrorKind>)
        ensures
            final(frame).unit == old(frame).unit,
            final(frame).locals@ == old(frame).locals@,
            final(frame).globals@ == old(frame).globals@,
            final(frame).blocks@ == old(frame).blocks@,
            final(frame).ret == old(frame).ret,
            final(frame).signal == old(frame).signal,
            r is Err ==> same_frame(final(frame), old(frame)),
            old(frame).stack@.len() == 0 ==> r == Err::<(), ErrorKind>(ErrorKind::StackUnderflow),
            old(frame).stack@.len() > 0 ==> {
                let s = old(frame).stack@;
                match s.last() {
                    Value::Iter(h, p) => if h >= self.heap@.len() {
                        r == Err::<(), ErrorKind>(ErrorKind::MalformedBytecode)
                    } else if p < self.heap@[h as int]@.len() {
                        r is Ok && final(frame).pc == old(frame).pc && final(frame).stack@ == s.drop_last().push(
                            Value::Iter(h, (p + 1) as usize),
                        ).push(self.heap@[h as int]@[p as int])
                    } else {
                        r is Ok && final(frame).pc == exit && final(frame).stack@ == s.drop_last()
                    },
                    _ => r == Err::<(), ErrorKind>(ErrorKind::TypeMismatch),
                }
            },
    {
        let n = frame.stack.len();
        if n == 0 {
            return Err(ErrorKind::StackUnderflow);
        }
        match frame.stack[n - 1] {
            Value::Iter(h, p) => {
                if h >= self.heap.len() {
                    return Err(ErrorKind::MalformedBytecode);
                }
                if p < self.heap[h].len() {
                    let item = self.heap[h][p];
                    frame.stack.pop();
                    frame.stack.push(Value::Iter(h, p + 1));
                    frame.stack.push(item);
                } else {
                    frame.stack.pop();
                    frame.pc = exit;
                }
                Ok(())
            },
            _ => Err(ErrorKind::TypeMismatch),
        }
    }

    /// Compares the two top elements, `a` (deeper) and `b`, and replaces them
    /// by the boolean result. On failure the stack does not change.
    pub fn compare(&self, frame: &mut Frame, op: usize) -> (r: Result<(), ErrorKind>)
        ensures
            same_but_stack(final(frame), old(frame)),
            r is Err ==> final(frame).stack@ == old(frame).stack@,
            r != Err::<(), ErrorKind>(ErrorKind::StepLimit),
            old(frame).stack@.len() < 2 ==> r == Err::<(), ErrorKind>(ErrorKind::StackUnderflow),
            old(frame).stack@.len() >= 2 ==> {
                let s = old(frame).stack@;
                match compare_result(self.texts_view(), self.heap_view(), op, s[s.len() - 2], s.last()) {
                    Ok(v) => r is Ok && final(frame).stack@ == pop2(s).push(v),
                    Err(e) => r == Err::<(), ErrorKind>(e),
                }
            },
    {
        let n = frame.stack.len();
        if n < 2 {
            return Err(ErrorKind::StackUnderflow);
        }
        let a = frame.stack[n - 2];
        let b = frame.stack[n - 1];
        proof {
            if let (Value::List(x), Value::List(y)) = (a, b) {
                if x < self.heap@.len() && y < self.heap@.len() {
                    lemma_seq_eq_errors(self.texts_view(), self.heap_view(), self.heap_view()[x as int], self.heap_view()[y as int], EQ_DEPTH as nat);
                }
            }
        }
        let v = if op == 2 {
            match (a, b) {
                (Value::Int(x), Value::Int(y)) => Value::Bool(x == y),
                (Value::Bool(x), Value::Bool(y)) => Value::Bool(x == y),
                (Value::Text(x), Value::Text(y)) => {
                    if x >= self.texts.len() || y >= self.texts.len() {
                        return Err(ErrorKind::MalformedBytecode);
                    }
                    Value::Bool(self.texts[x] == self.texts[y])
                },
                (Value::List(x), Value::List(y)) => {
                    if x >= self.heap.len() || y >= self.heap.len() {
                        return Err(ErrorKind::MalformedBytecode);
                    }
                    Value::Bool(self.seq_equal(&self.heap[x], &self.heap[y], EQ_DEPTH)?)
                },
                _ => return Err(ErrorKind::TypeMismatch),
            }
        } else if op == 4 {
            match (a, b) {
                (Value::Int(x), Value::Int(y)) => Value::Bool(x > y),
                _ => return Err(ErrorKind::TypeMismatch),
            }
        } else {
            return Err(ErrorKind::UnsupportedInstruction);
        };
        frame.stack.pop();
        frame.stack.pop();
        frame.stack.push(v);
        Ok(())
    }

    /// Pops a qualifier name, then a code value, and pushes a function over
    /// that code.
    pub fn make_function(&self, frame: &mut Frame) -> (r: Result<(), ErrorKind>)
        ensures
            same_but_stack(final(frame), old(frame)),
            r is Err ==> final(frame).stack@ == old(frame).stack@,
            old(frame).stack@.len() < 2 ==> r == Err::<(), ErrorKind>(ErrorKind::StackUnderflow),
            old(frame).stack@.len() >= 2 ==> {
                let s = old(frame).stack@;
                match s[s.len() - 2] {
                    Value::Code(u) => r is Ok && final(frame).stack@ == pop2(s).push(Value::Function(u)),
                    _ => r == Err::<(), ErrorKind>(ErrorKind::TypeMismatch),
                }
            },
    {
        let n = frame.stack.len();
        if n < 2 {
            return Err(ErrorKind::StackUnderflow);
        }
        match frame.stack[n - 2] {
            Value::Code(u) => {
                frame.stack.pop();
                frame.stack.pop();
                frame.stack.push(Value::Function(u));
                Ok(())
            },
            _ => Err(ErrorKind::TypeMismatch),
        }
    }

    /// Runs a primitive on its arguments. `Print` emits each argument and then
    /// a line break, and returns the none value; `Len` takes one list or text.
    pub fn call_primitive(&mut self, p: Primitive, args: &Vec<Value>) -> (r: Result<Value, ErrorKind>)
        ensures
            keeps(final(self), old(self)),
            final(self).heap@ == old(self).heap@,
            p == Primitive::Print ==> r == Ok::<Value, ErrorKind>(Value::NoneValue) && final(self).output@
                == old(self).output@ + args@.map_values(|v: Value| Emitted::Item(v)).push(Emitted::Newline),
            p == Primitive::Len ==> final(self).output@ == old(self).output@ && r == (if args@.len() == 1 {
                len_result(old(self).texts_view(), old(self).heap_view(), args@[0])
            } else {
                Err(ErrorKind::TypeMismatch)
            }),
    {
        match p {
            Primitive::Print => {
                let mut i: usize = 0;
                while i < args.len()
                    invariant
                        i <= args@.len(),
                        keeps(self, old(self)),
                        self.heap@ == old(self).heap@,
                        self.output@ == old(self).output@ + args@.subrange(0, i as int).map_values(
                            |v: Value| Emitted::Item(v),
                        ),
                    decreases args@.len() - i,
                {
                    self.output.push(Emitted::Item(args[i]));
                    assert(args@.subrange(0, i + 1) =~= args@.subrange(0, i as int).push(args@[i as int]));
                    assert(self.output@ =~= old(self).output@ + args@.subrange(0, i + 1).map_values(
                        |v: Value| Emitted::Item(v),
                    ));
                    i = i + 1;
                }
                assert(args@.subrange(0, i as int) =~= args@);
                self.output.push(Emitted::Newline);
                Ok(Value::NoneValue)
            },
            Primitive::Len => {
                if args.len() != 1 {
                    return Err(ErrorKind::TypeMismatch);
                }
                let n: usize = match args[0] {
                    Value::List(h) => {
                        if h >= self.heap.len() {
                            return Err(ErrorKind::MalformedBytecode);
                        }
                        self.heap[h].len()
                    },
                    Value::Text(t) => {
                        if t >= self.texts.len() {
                            return Err(ErrorKind::MalformedBytecode);
                        }
                        self.texts[t].as_str().unicode_len()
                    },
                    _ => return Err(ErrorKind::TypeMismatch),
                };
                if n as u64 > i64::MAX as u64 {
                    return Err(ErrorKind::ArithmeticError);
                }
                Ok(Value::Int(n as i64))
            },
        }
    }
}

/// What a primitive returns on the given arguments.
pub open spec fn primitive_result(texts: Seq<Seq<char>>, heap: Seq<Seq<Value>>, p: Primitive, args: Seq<Value>) -> Result<
    Value,
    ErrorKind,
> {
    match p {
        Primitive::Print => Ok(Value::NoneValue),
        Primitive::Len => if args.len() == 1 {
            len_result(texts, heap, args[0])
        } else {
            Err(ErrorKind::TypeMismatch)
        },
    }
}

impl Converter {
    /// Performs a call whose operand has `pos` positional and `kw` keyword
    /// arguments. Keyword pairs (key below value) are popped and dropped, then
    /// the positional arguments, then the callee. A primitive runs at once and
    /// its result is pushed: the result is `None`. A function yields the
    /// callee's frame, whose scope is the caller's locals with the arguments
    /// bound to the callee's local names. On failure the stack does not change.
    pub fn call(&mut self, frame: &mut Frame, pos: usize, kw: usize) -> (r: Result<Option<Frame>, ErrorKind>)
        ensures
            same_but_stack(final(frame), old(frame)),
            keeps(final(self), old(self)),
            final(self).heap@ == old(self).heap@,
            r is Err ==> final(frame).stack@ == old(frame).stack@,
            !(r matches Ok(None)) ==> final(self).output@ == old(self).output@,
            ({
                let s = old(frame).stack@;
                let n = s.len() as int;
                if n < 2 * kw + pos + 1 {
                    r == Err::<Option<Frame>, ErrorKind>(ErrorKind::StackUnderflow)
                } else if !keys_are_text(s, kw as int) {
                    r == Err::<Option<Frame>, ErrorKind>(ErrorKind::TypeMismatch)
                } else {
                    let base = n - 2 * kw - pos;
                    let args = s.subrange(base, base + pos);
                    match s[base - 1] {
                        Value::Function(u) => if u < old(self).units@.len() && old(self).units@[u as int].instrs@.len() > 0 {
                            (r matches Ok(Some(f)) && {
                                let scope = frame_scope(old(frame).locals@, old(self).units@[u as int].varnames@, args);
                                f@ == FrameModel {
                                    unit: u,
                                    stack: Seq::empty(),
                                    locals: scope,
                                    globals: scope,
                                    blocks: Seq::empty(),
                                    pc: 0,
                                    ret: Value::NoneValue,
                                    signal: Signal::Idle,
                                }
                            }) && final(frame).stack@ == s.subrange(0, base - 1)
                        } else {
                            r == Err::<Option<Frame>, ErrorKind>(ErrorKind::MalformedBytecode)
                        },
                        Value::Primitive(p) => match primitive_result(
                            old(self).texts_view(),
                            old(self).heap_view(),
                            p,
                            args,
                        ) {
                            Ok(v) => r matches Ok(None) && final(frame).stack@ == s.subrange(0, base - 1).push(v)
                                && final(self).output@ == primitive_output(old(self).output@, p, args),
                            Err(e) => r == Err::<Option<Frame>, ErrorKind>(e),
                        },
                        _ => r == Err::<Option<Frame>, ErrorKind>(ErrorKind::UnsupportedInstruction),
                    }
                }
            }),
    {
        let n = frame.stack.len();
        if kw > n / 2 {
            assert(2 * kw > n) by (nonlinear_arith)
                requires
                    kw > n / 2,
            ;
            return Err(ErrorKind::StackUnderflow);
        }
        assert(2 * kw <= n) by (nonlinear_arith)
            requires
                kw <= n / 2,
        ;
        if pos >= n - 2 * kw {
            return Err(ErrorKind::StackUnderflow);
        }
        let top = n - 2 * kw;
        let mut j: usize = 0;
        while j < kw
            invariant
                j <= kw,
                2 * kw + pos + 1 <= n,
                n == frame.stack@.len(),
                top == n - 2 * kw,
                frame.stack@ == old(frame).stack@,
                forall|m: int| 0 <= m < j ==> (#[trigger] frame.stack@[n - 2 * kw + 2 * m]) is Text,
            decreases kw - j,
        {
            match frame.stack[top + 2 * j] {
                Value::Text(_) => {},
                _ => {
                    proof {
                        let t = old(frame).stack@;
                        let jj = j as int;
                        let kk = kw as int;
                        assert(!(t[t.len() - 2 * kk + 2 * jj] is Text));
                        assert(!keys_are_text(t, kk));
                    }
                    return Err(ErrorKind::TypeMismatch);
                },
            }
            j = j + 1;
        }
        let base = top - pos;
        let mut args: Vec<Value> = Vec::new();
        let mut k: usize = base;
        while k < top
            invariant
                base <= k <= top,
                top <= n,
                top == n - 2 * kw,
                base == top - pos,
                2 * kw + pos + 1 <= n,
                forall|m: int| 0 <= m < kw ==> (#[trigger] frame.stack@[n - 2 * kw + 2 * m]) is Text,
                n == frame.stack@.len(),
                frame.stack@ == old(frame).stack@,
                args@ == old(frame).stack@.subrange(base as int, k as int),
            decreases top - k,
        {
            args.push(frame.stack[k]);
            assert(args@ =~= old(frame).stack@.subrange(base as int, k + 1));
            k = k + 1;
        }
        match frame.stack[base - 1] {
            Value::Function(u) => {
                let enclosing = frame.locals.clone();
                let callee = self.make_frame(u, &args, enclosing)?;
                frame.stack.truncate(base - 1);
                Ok(Some(callee))
            },
            Value::Primitive(p) => {
                let v = self.call_primitive(p, &args)?;
                frame.stack.truncate(base - 1);
                frame.stack.push(v);
                Ok(None)
            },
            _ => Err(ErrorKind::UnsupportedInstruction),
        }
    }

    /// Executes the instruction at the frame's instruction pointer, after
    /// moving the pointer past it.
    pub fn step(&mut self, frame: &mut Frame) -> (r: Result<Outcome, ErrorKind>)
        ensures
            keeps(final(self), old(self)),
            r != Err::<Outcome, ErrorKind>(ErrorKind::StepLimit),
            match step_model(old(self).units@, old(self).texts_view(), old(self).heap_view(), old(self).output@, old(frame)@) {
                StepModel::Fail(e) => r == Err::<Outcome, ErrorKind>(e) && final(self).heap_view() == old(self).heap_view()
                    && final(self).output@ == old(self).output@,
                StepModel::Next(h, o, g) => r matches Ok(Outcome::Continue) && final(self).heap_view() == h
                    && final(self).output@ == o && final(frame)@ == g,
                StepModel::Enter(c, callee) => (r matches Ok(Outcome::Call(nf)) && nf@ == callee) && final(frame)@ == c
                    && final(self).heap_view() == old(self).heap_view() && final(self).output@ == old(self).output@,
                StepModel::Done(g) => r matches Ok(Outcome::Returned) && final(frame)@ == g
                    && final(self).heap_view() == old(self).heap_view() && final(self).output@ == old(self).output@,
            },
            instr_at(old(self).units@, old(frame)) is None ==> r == Err::<Outcome, ErrorKind>(
                ErrorKind::MalformedBytecode,
            ),
            instr_at(old(self).units@, old(frame)) matches Some(ins) ==> {
                &&& r is Ok && !is_control(ins) ==> final(frame).pc == old(frame).pc + 1
                &&& (r matches Ok(Outcome::Returned)) <==> (r is Ok && ins == Instr::Return)
                &&& r matches Ok(Outcome::Returned) ==> final(frame).ret == old(frame).stack@.last()
                    && final(frame).signal == Signal::Return
                &&& r matches Ok(Outcome::Call(_)) ==> ins is Call
                &&& ins is Jump ==> r is Ok && final(frame).pc == ins->Jump_0
                &&& ins is Break && old(frame).blocks@.len() > 0 ==> r is Ok && final(frame).pc
                    == old(frame).blocks@.last() && final(frame).blocks@ == old(frame).blocks@.drop_last()
                &&& ins is Unsupported ==> r == Err::<Outcome, ErrorKind>(ErrorKind::UnsupportedInstruction)
                &&& ins is Nop ==> r is Ok && final(frame).stack@ == old(frame).stack@
                &&& ins is SetupLoop ==> r is Ok && final(frame).blocks@ == old(frame).blocks@.push(
                    ins->SetupLoop_0,
                )
                &&& ins is LoadConst && r is Ok ==> final(frame).stack@ == old(frame).stack@.push(
                    old(self).units@[old(frame).unit as int].consts@[ins->LoadConst_0 as int],
                )
                &&& ins is Binary ==> {
                    let s = old(frame).stack@;
                    s.len() >= 2 ==> match binary_result(ins->Binary_0, s[s.len() - 2], s.last()) {
                        Ok(v) => r is Ok && final(frame).stack@ == pop2(s).push(v),
                        Err(e) => r == Err::<Outcome, ErrorKind>(e) && final(frame).stack@ == s,
                    }
                }
                &&& ins is Compare ==> {
                    let s = old(frame).stack@;
                    s.len() >= 2 ==> match compare_result(
                        old(self).texts_view(),
                        old(self).heap_view(),
                        ins->Compare_0,
                        s[s.len() - 2],
                        s.last(),
                    ) {
                        Ok(v) => r is Ok && final(frame).stack@ == pop2(s).push(v),
                        Err(e) => r == Err::<Outcome, ErrorKind>(e) && final(frame).stack@ == s,
                    }
                }
                &&& (ins is JumpIfTrue || ins is JumpIfFalse) && old(frame).stack@.len() > 0 ==> {
                    let (want, t) = match ins {
                        Instr::JumpIfTrue(t) => (true, t),
                        Instr::JumpIfFalse(t) => (false, t),
                        _ => (false, 0),
                    };
                    r is Ok && final(frame).stack@ == old(frame).stack@.drop_last() && final(frame).pc == (
                    if old(frame).stack@.last() == Value::Bool(want) {
                        t
                    } else {
                        (old(frame).pc + 1) as usize
                    })
                }
                &&& (ins is LoadName || ins is LoadGlobal || ins is LoadFast) ==> {
                    let unit = old(self).units@[old(frame).unit as int];
                    let (table, i) = match ins {
                        Instr::LoadFast(i) => (unit.varnames@, i),
                        Instr::LoadName(i) => (unit.names@, i),
                        Instr::LoadGlobal(i) => (unit.names@, i),
                        _ => (unit.names@, 0),
                    };
                    let found = if ins is LoadGlobal {
                        if old(frame).globals@.contains_key(table[i as int]) {
                            Some(old(frame).globals@[table[i as int]])
                        } else {
                            None
                        }
                    } else {
                        lookup(old(frame).locals@, old(frame).globals@, table[i as int])
                    };
                    &&& i >= table.len() ==> r == Err::<Outcome, ErrorKind>(ErrorKind::MalformedBytecode)
                    &&& i < table.len() ==> match found {
                        Some(v) => r is Ok && final(frame).stack@ == old(frame).stack@.push(v),
                        None => r == Err::<Outcome, ErrorKind>(ErrorKind::UnboundName),
                    }
                }
                &&& ins is StoreName && old(frame).stack@.len() > 0 ==> {
                    let names = old(self).units@[old(frame).unit as int].names@;
                    let i = ins->StoreName_0;
                    i < names.len() ==> r is Ok && final(frame).stack@ == old(frame).stack@.drop_last()
                        && final(frame).locals@ == old(frame).locals@.insert(names[i as int], old(frame).stack@.last())
                }
                &&& ins is BuildList && ins->BuildList_0 <= old(frame).stack@.len() ==> {
                    let s = old(frame).stack@;
                    let n = ins->BuildList_0;
                    let h = old(self).heap@.len();
                    &&& r is Ok
                    &&& final(self).heap@.len() == h + 1
                    &&& final(self).heap@.subrange(0, h as int) == old(self).heap@
                    &&& final(self).heap@[h as int]@ == s.subrange(s.len() - n, s.len() as int)
                    &&& final(frame).stack@ == s.subrange(0, s.len() - n).push(Value::List(h as usize))
                }
                &&& ins is StoreSubscr && r is Err ==> final(frame).stack@ == old(frame).stack@
                    && final(self).heap@ == old(self).heap@
                &&& ins is StoreSubscr && old(frame).stack@.len() >= 3 ==> {
                    let s = old(frame).stack@;
                    let n = s.len();
                    match (s[n - 2], s[n - 1]) {
                        (Value::List(h), Value::Int(i)) => h < old(self).heap@.len() && 0 <= i
                            < old(self).heap@[h as int]@.len() ==> r is Ok && final(frame).stack@ == s.subrange(0, n - 3)
                            && final(self).heap@[h as int]@ == old(self).heap@[h as int]@.update(i as int, s[n - 3]),
                        _ => r == Err::<Outcome, ErrorKind>(ErrorKind::TypeMismatch),
                    }
                }
                &&& ins is PrintItem && old(frame).stack@.len() > 0 ==> r is Ok && final(self).output@
                    == old(self).output@.push(Emitted::Item(old(frame).stack@.last()))
                &&& ins is PrintNewline ==> r is Ok && final(self).output@ == old(self).output@.push(
                    Emitted::Newline,
                )
                &&& ins is Raise ==> r is Err && (ins->Raise_0 != 1 ==> r == Err::<Outcome, ErrorKind>(
                    ErrorKind::UnsupportedInstruction,
                )) && (ins->Raise_0 == 1 && old(frame).stack@.len() > 0 ==> r == Err::<Outcome, ErrorKind>(
                    ErrorKind::UserRaise(old(frame).stack@.last()),
                ))
            },
    {
        let u = frame.unit;
        if u >= self.units.len() || frame.pc >= self.units[u].instrs.len() {
            return Err(ErrorKind::MalformedBytecode);
        }
        let ins = self.units[u].instrs[frame.pc];
        frame.pc = frame.pc + 1;
        match ins {
            Instr::LoadConst(i) => self.load_const(frame, i)?,
            Instr::Pop => {
                frame.pop()?;
            },
            Instr::LoadFast(i) => {
                let name = self.name_at(frame, i, true)?;
                frame.load(name, false)?;
            },
            Instr::StoreName(i) => {
                let name = self.name_at(frame, i, false)?;
                frame.store(name)?;
            },
            Instr::LoadName(i) => {
                let name = self.name_at(frame, i, false)?;
                frame.load(name, false)?;
            },
            Instr::LoadGlobal(i) => {
                let name = self.name_at(frame, i, false)?;
                frame.load(name, true)?;
            },
            Instr::BuildList(n) => self.build_list(frame, n)?,
            Instr::BuildSlice(n) => frame.build_slice(n)?,
            Instr::GetIter => self.get_iter(frame)?,
            Instr::ForIter(t) => self.for_iter(frame, t)?,
            Instr::Compare(op) => self.compare(frame, op)?,
            Instr::JumpIfTrue(t) => frame.jump_if(true, t)?,
            Instr::JumpIfFalse(t) => frame.jump_if(false, t)?,
            Instr::Jump(t) => {
                frame.pc = t;
            },
            Instr::Break => frame.unwind_break()?,
            Instr::Raise(n) => {
                if n != 1 {
                    return Err(ErrorKind::UnsupportedInstruction);
                }
                let v = frame.pop()?;
                return Err(ErrorKind::UserRaise(v));
            },
            Instr::StoreSubscr => self.store_subscr(frame)?,
            Instr::Binary(op) => frame.binary(op)?,
            Instr::RotTwo => frame.rot_two()?,
            Instr::Unary(op) => frame.unary(op)?,
            Instr::PrintItem => {
                let v = frame.pop()?;
                self.output.push(Emitted::Item(v));
            },
            Instr::PrintNewline => {
                self.output.push(Emitted::Newline);
            },
            Instr::MakeFunction => self.make_function(frame)?,
            Instr::Call(pos, kw) => {
                match self.call(frame, pos, kw)? {
                    Some(callee) => return Ok(Outcome::Call(callee)),
                    None => {},
                }
            },
            Instr::Return => {
                frame.return_value()?;
                return Ok(Outcome::Returned);
            },
            Instr::SetupLoop(t) => frame.setup_loop(t),
            Instr::PopBlock => frame.pop_block(),
            Instr::Nop => {},
            Instr::Unsupported => return Err(ErrorKind::UnsupportedInstruction),
        }
        Ok(Outcome::Continue)
    }
}

impl Converter {
    /// Runs `frame` until it returns, running the frames of nested calls on
    /// the way; each instruction costs one step of the budget. The result, the
    /// heap and the output are those of `exec` over the budget; the stack of
    /// suspended callers is as it was.
    fn run_frame(&mut self, frame: Frame, Ghost(f0): Ghost<FrameModel>) -> (r: Result<Value, ErrorKind>)
        requires
            frame@ == f0,
        ensures
            ({
                let e = exec(
                    old(self).units@,
                    old(self).texts_view(),
                    old(self).heap_view(),
                    old(self).output@,
                    f0,
                    Seq::empty(),
                    old(self).steps_left as nat,
                );
                r == e.0 && final(self).heap_view() == e.1 && final(self).output@ == e.2
            }),
            final(self).units@ == old(self).units@,
            final(self).symbols@ == old(self).symbols@,
            final(self).texts@ == old(self).texts@,
            final(self).frames@ == old(self).frames@,
            final(self).steps_left <= old(self).steps_left,
            r == Err::<Value, ErrorKind>(ErrorKind::StepLimit) ==> final(self).steps_left == 0,
    {
        let base = self.frames.len();
        let mut cur = frame;
        let ghost whole = exec(
            old(self).units@,
            old(self).texts_view(),
            old(self).heap_view(),
            old(self).output@,
            f0,
            Seq::empty(),
            old(self).steps_left as nat,
        );
        assert(frames_model(self.frames@.subrange(base as int, base as int)) =~= Seq::<FrameModel>::empty());
        loop
            invariant
                self.units@ == old(self).units@,
                self.symbols@ == old(self).symbols@,
                self.texts@ == old(self).texts@,
                base == old(self).frames@.len(),
                self.frames@.len() >= base,
                self.frames@.subrange(0, base as int) == old(self).frames@,
                self.steps_left <= old(self).steps_left,
                whole == exec(
                    old(self).units@,
                    old(self).texts_view(),
                    old(self).heap_view(),
                    old(self).output@,
                    f0,
                    Seq::empty(),
                    old(self).steps_left as nat,
                ),
                whole == exec(
                    self.units@,
                    self.texts_view(),
                    self.heap_view(),
                    self.output@,
                    cur@,
                    frames_model(self.frames@.subrange(base as int, self.frames@.len() as int)),
                    self.steps_left as nat,
                ),
            decreases self.steps_left,
        {
            let ghost callers = frames_model(self.frames@.subrange(base as int, self.frames@.len() as int));
            if self.steps_left == 0 {
                self.frames.truncate(base);
                assert(self.frames@ =~= old(self).frames@);
                return Err(ErrorKind::StepLimit);
            }
            self.steps_left = self.steps_left - 1;
            match self.step(&mut cur) {
                Err(e) => {
                    self.frames.truncate(base);
                    assert(self.frames@ =~= old(self).frames@);
                    return Err(e);
                },
                Ok(Outcome::Continue) => {},
                Ok(Outcome::Call(callee)) => {
                    let ghost before = self.frames@;
                    let ghost waiting = cur@;
                    self.frames.push(cur);
                    assert(self.frames@.subrange(0, base as int) =~= before.subrange(0, base as int));
                    assert(frames_model(self.frames@.subrange(base as int, self.frames@.len() as int)) =~= callers.push(
                        waiting,
                    ));
                    cur = callee;
                },
                Ok(Outcome::Returned) => {
                    let v = cur.ret;
                    if self.frames.len() == base {
                        assert(self.frames@ =~= old(self).frames@);
                        assert(callers =~= Seq::<FrameModel>::empty());
                        return Ok(v);
                    }
                    let ghost before = self.frames@;
                    cur = self.frames.pop().unwrap();
                    assert(self.frames@.subrange(0, base as int) =~= before.subrange(0, base as int));
                    assert(callers.last() == cur@);
                    assert(frames_model(self.frames@.subrange(base as int, self.frames@.len() as int))
                        =~= callers.drop_last());
                    cur.stack.push(v);
                },
            }
        }
    }

    /// Loads a code unit and runs it from its first instruction with an
    /// empty enclosing scope; returns what it returns. Where the unit loads,
    /// the result, heap and output are those of `exec` from the unit's entry
    /// frame over the whole step budget.
    pub fn run_code(&mut self, code: CodeUnit) -> (r: Result<Value, ErrorKind>)
        ensures
            translatable(code.instructions@) && (forall|i: int| 0 <= i < code.consts@.len() ==> codes_loaded(
                #[trigger] code.consts@[i],
                old(self).units@.len(),
            )) ==> {
                let e = exec(
                    final(self).units@,
                    final(self).texts_view(),
                    old(self).heap_view(),
                    old(self).output@,
                    entry_frame(final(self).units@, old(self).units@.len() as usize),
                    Seq::empty(),
                    old(self).steps_left as nat,
                );
                r == e.0 && final(self).heap_view() == e.1 && final(self).output@ == e.2
            },
            r is Err && !(r == Err::<Value, ErrorKind>(ErrorKind::MalformedBytecode)) ==> translatable(
                code.instructions@,
            ),
            !translatable(code.instructions@) ==> r == Err::<Value, ErrorKind>(ErrorKind::MalformedBytecode)
                && final(self).output@ == old(self).output@ && final(self).heap_view() == old(self).heap_view(),
            final(self).frames@ == old(self).frames@,
            final(self).steps_left <= old(self).steps_left,
            r == Err::<Value, ErrorKind>(ErrorKind::StepLimit) ==> final(self).steps_left == 0,
    {
        let u = self.load_unit(&code)?;
        let args: Vec<Value> = Vec::new();
        let frame = self.make_frame(u, &args, HashMap::new())?;
        assert(frame@ == entry_frame(self.units@, u));
        let ghost f0 = frame@;
        self.run_frame(frame, Ghost(f0))
    }
}

/// Lists are shared by their aliases: where two names resolve to the same
/// list and the heap is then changed as a subscript assignment through the
/// first changes it, the second name sees the new element.
pub proof fn lemma_list_aliasing(
    locals: Map<usize, Value>,
    globals: Map<usize, Value>,
    a: usize,
    b: usize,
    before: Seq<Seq<Value>>,
    after: Seq<Seq<Value>>,
    i: int,
    v: Value,
)
    requires
        lookup(locals, globals, a) matches Some(Value::List(h)) && h < before.len() && 0 <= i
            < before[h as int].len() && after.len() == before.len() && after[h as int] == before[h as int].update(i, v),
        lookup(locals, globals, b) == lookup(locals, globals, a),
    ensures
        lookup(locals, globals, b) matches Some(Value::List(hb)) && after[hb as int][i] == v,
{
}

impl Converter {
    /// Structural equality of two element sequences, as `seq_eq` states it.
    pub fn seq_equal(&self, a: &Vec<Value>, b: &Vec<Value>, depth: u64) -> (r: Result<bool, ErrorKind>)
        ensures
            r == seq_eq(self.texts_view(), self.heap_view(), a@, b@, depth as nat),
        decreases depth,
    {
        if a.len() != b.len() {
            return Ok(false);
        }
        let mut i: usize = 0;
        assert(a@.skip(0) =~= a@);
        assert(b@.skip(0) =~= b@);
        while i < a.len()
            invariant
                i <= a@.len(),
                a@.len() == b@.len(),
                seq_eq(self.texts_view(), self.heap_view(), a@, b@, depth as nat) == seq_eq(
                    self.texts_view(),
                    self.heap_view(),
                    a@.skip(i as int),
                    b@.skip(i as int),
                    depth as nat,
                ),
            decreases a@.len() - i,
        {
            let ghost sa = a@.skip(i as int);
            let ghost sb = b@.skip(i as int);
            assert(sa[0] == a@[i as int]);
            assert(sb[0] == b@[i as int]);
            assert(sa.drop_first() =~= a@.skip(i + 1));
            assert(sb.drop_first() =~= b@.skip(i + 1));
            let same = match (a[i], b[i]) {
                (Value::Text(x), Value::Text(y)) => {
                    if x >= self.texts.len() || y >= self.texts.len() {
                        return Err(ErrorKind::MalformedBytecode);
                    }
                    self.texts[x] == self.texts[y]
                },
                (Value::List(x), Value::List(y)) => {
                    if depth == 0 {
                        return Err(ErrorKind::TooDeep);
                    }
                    if x >= self.heap.len() || y >= self.heap.len() {
                        return Err(ErrorKind::MalformedBytecode);
                    }
                    self.seq_equal(&self.heap[x], &self.heap[y], depth - 1)?
                },
                (x, y) => x == y,
            };
            if !same {
                return Ok(false);
            }
            i = i + 1;
        }
        assert(a@.skip(i as int).len() == 0);
        Ok(true)
    }
}

/// A step of any instruction but a jump, break, iteration step or return
/// either fails or goes on at the next instruction (in the frame itself, or
/// in the caller once a call is entered); only a return ends a frame.
pub proof fn lemma_straight_line_step(units: Seq<Unit>, texts: Seq<Seq<char>>, heap: Seq<Seq<Value>>, out: Seq<Emitted>, f: FrameModel)
    requires
        f.unit < units.len(),
        f.pc < units[f.unit as int].instrs@.len(),
        f.pc < usize::MAX,
    ensures
        !is_control(units[f.unit as int].instrs@[f.pc as int]) ==> match step_model(units, texts, heap, out, f) {
            StepModel::Next(_, _, g) => g.pc == f.pc + 1,
            StepModel::Enter(c, _) => c.pc == f.pc + 1,
            StepModel::Done(_) => false,
            StepModel::Fail(_) => true,
        },
        step_model(units, texts, heap, out, f) is Done ==> units[f.unit as int].instrs@[f.pc as int] == Instr::Return,
{
    let unit = units[f.unit as int];
    let g = FrameModel { pc: (f.pc + 1) as usize, ..f };
    match unit.instrs@[f.pc as int] {
        Instr::LoadFast(i) => {
            assert(load_model(g, unit.varnames@, i, false) matches Ok(h) ==> h.pc == g.pc);
        },
        Instr::LoadName(i) => {
            assert(load_model(g, unit.names@, i, false) matches Ok(h) ==> h.pc == g.pc);
        },
        Instr::LoadGlobal(i) => {
            assert(load_model(g, unit.names@, i, true) matches Ok(h) ==> h.pc == g.pc);
        },
        Instr::Call(pos, kw) => {
            assert(call_model(units, texts, heap, out, g, pos, kw) matches StepModel::Next(_, _, h) ==> h.pc == g.pc);
        },
        _ => {},
    }
}

/// A run ends with a result only through an explicit return instruction: a
/// unit of the run holds one.
pub proof fn lemma_result_needs_return(units: Seq<Unit>, texts: Seq<Seq<char>>, heap: Seq<Seq<Value>>, out: Seq<Emitted>, f: FrameModel, callers: Seq<FrameModel>, fuel: nat)
    ensures
        exec(units, texts, heap, out, f, callers, fuel).0 is Ok ==> exists|u: int, p: int|
            0 <= u < units.len() && 0 <= p < units[u].instrs@.len() && #[trigger] units[u].instrs@[p] == Instr::Return,
    decreases fuel,
{
    if fuel > 0 {
        let m = step_model(units, texts, heap, out, f);
        if m is Done {
            if f.unit < units.len() && f.pc < units[f.unit as int].instrs@.len() {
                assert(units[f.unit as int].instrs@[f.pc as int] == Instr::Return);
            }
        }
        match m {
            StepModel::Next(h, o, g) => lemma_result_needs_return(units, texts, h, o, g, callers, (fuel - 1) as nat),
            StepModel::Enter(c, callee) => lemma_result_needs_return(units, texts, heap, out, callee, callers.push(c), (fuel - 1) as nat),
            StepModel::Done(g) => if callers.len() > 0 {
                let c = callers.last();
                lemma_result_needs_return(units, texts, heap, out, with_stack(c, c.stack.push(g.ret)), callers.drop_last(), (fuel - 1) as nat);
            },
            StepModel::Fail(_) => {},
        }
    }
}

/// Pushing the constants 5 and 3, adding and returning gives the integer 8,
/// on any budget of at least four steps.
pub proof fn lemma_add_two_constants(u: Unit, texts: Seq<Seq<char>>, heap: Seq<Seq<Value>>, out: Seq<Emitted>, fuel: nat)
    requires
        u.instrs@ == seq![
            Instr::LoadConst(0),
            Instr::LoadConst(1),
            Instr::Binary(crate::value::BinaryOp::Add),
            Instr::Return,
        ],
        u.consts@ == seq![Value::Int(5), Value::Int(3)],
        fuel >= 4,
    ensures
        exec(seq![u], texts, heap, out, entry_frame(seq![u], 0), Seq::empty(), fuel) == (
            Ok::<Value, ErrorKind>(Value::Int(8)),
            heap,
            out,
        ),
{
    let units = seq![u];
    let f0 = entry_frame(units, 0);
    let f1 = with_stack(FrameModel { pc: 1, ..f0 }, seq![Value::Int(5)]);
    let f2 = with_stack(FrameModel { pc: 2, ..f0 }, seq![Value::Int(5), Value::Int(3)]);
    let f3 = with_stack(FrameModel { pc: 3, ..f0 }, seq![Value::Int(8)]);
    assert(step_model(units, texts, heap, out, f0) == StepModel::Next(heap, out, f1)) by {
        assert(f0.stack.push(Value::Int(5)) =~= seq![Value::Int(5)]);
    }
    assert(step_model(units, texts, heap, out, f1) == StepModel::Next(heap, out, f2)) by {
        assert(f1.stack.push(Value::Int(3)) =~= seq![Value::Int(5), Value::Int(3)]);
    }
    assert(step_model(units, texts, heap, out, f2) == StepModel::Next(heap, out, f3)) by {
        assert(pop2(f2.stack).push(Value::Int(8)) =~= seq![Value::Int(8)]);
    }
    assert(step_model(units, texts, heap, out, f3) is Done);
    assert(exec(units, texts, heap, out, f3, Seq::empty(), (fuel - 3) as nat) == (
        Ok::<Value, ErrorKind>(Value::Int(8)),
        heap,
        out,
    ));
    assert(exec(units, texts, heap, out, f2, Seq::empty(), (fuel - 2) as nat) == exec(units, texts, heap, out, f3, Seq::empty(), (fuel - 3) as nat));
    assert(exec(units, texts, heap, out, f1, Seq::empty(), (fuel - 1) as nat) == exec(units, texts, heap, out, f2, Seq::empty(), (fuel - 2) as nat));
}

/// Calling a function of no arguments whose body returns a constant yields
/// exactly that constant as the value of the call, on any budget of at least
/// seven steps.
pub proof fn lemma_call_returns_constant(
    callee: Unit,
    main: Unit,
    c: Value,
    texts: Seq<Seq<char>>,
    heap: Seq<Seq<Value>>,
    out: Seq<Emitted>,
    fuel: nat,
)
    requires
        callee.instrs@ == seq![Instr::LoadConst(0), Instr::Return],
        callee.consts@ == seq![c],
        main.instrs@ == seq![Instr::LoadConst(0), Instr::LoadConst(1), Instr::MakeFunction, Instr::Call(0, 0), Instr::Return],
        main.consts@ == seq![Value::Code(0), Value::NoneValue],
        fuel >= 7,
    ensures
        exec(seq![callee, main], texts, heap, out, entry_frame(seq![callee, main], 1), Seq::empty(), fuel) == (
            Ok::<Value, ErrorKind>(c),
            heap,
            out,
        ),
{
    let units = seq![callee, main];
    let f0 = entry_frame(units, 1);
    let f1 = with_stack(FrameModel { pc: 1, ..f0 }, seq![Value::Code(0)]);
    let f2 = with_stack(FrameModel { pc: 2, ..f0 }, seq![Value::Code(0), Value::NoneValue]);
    let f3 = with_stack(FrameModel { pc: 3, ..f0 }, seq![Value::Function(0)]);
    let waiting = with_stack(FrameModel { pc: 4, ..f0 }, Seq::empty());
    let scope = frame_scope(f0.locals, callee.varnames@, Seq::empty());
    let g0 = FrameModel {
        unit: 0,
        stack: Seq::empty(),
        locals: scope,
        globals: scope,
        blocks: Seq::empty(),
        pc: 0,
        ret: Value::NoneValue,
        signal: Signal::Idle,
    };
    let g1 = with_stack(FrameModel { pc: 1, ..g0 }, seq![c]);
    let back = with_stack(waiting, seq![c]);
    assert(step_model(units, texts, heap, out, f0) == StepModel::Next(heap, out, f1)) by {
        assert(f0.stack.push(Value::Code(0)) =~= seq![Value::Code(0)]);
    }
    assert(step_model(units, texts, heap, out, f1) == StepModel::Next(heap, out, f2)) by {
        assert(f1.stack.push(Value::NoneValue) =~= seq![Value::Code(0), Value::NoneValue]);
    }
    assert(step_model(units, texts, heap, out, f2) == StepModel::Next(heap, out, f3)) by {
        assert(pop2(f2.stack).push(Value::Function(0)) =~= seq![Value::Function(0)]);
    }
    assert(step_model(units, texts, heap, out, f3) == StepModel::Enter(waiting, g0)) by {
        assert(f3.stack.subrange(0, 0) =~= Seq::<Value>::empty());
        assert(f3.stack.subrange(1, 1) =~= Seq::<Value>::empty());
    }
    assert(step_model(units, texts, heap, out, g0) == StepModel::Next(heap, out, g1)) by {
        assert(g0.stack.push(c) =~= seq![c]);
    }
    assert(step_model(units, texts, heap, out, g1) is Done);
    assert(waiting.stack.push(c) =~= seq![c]);
    assert(step_model(units, texts, heap, out, back) is Done);
    let callers = Seq::<FrameModel>::empty().push(waiting);
    assert(callers.drop_last() =~= Seq::<FrameModel>::empty());
    assert(exec(units, texts, heap, out, back, Seq::empty(), (fuel - 6) as nat) == (Ok::<Value, ErrorKind>(c), heap, out));
    assert(exec(units, texts, heap, out, g1, callers, (fuel - 5) as nat) == exec(units, texts, heap, out, back, Seq::empty(), (fuel - 6) as nat));
    assert(exec(units, texts, heap, out, g0, callers, (fuel - 4) as nat) == exec(units, texts, heap, out, g1, callers, (fuel - 5) as nat));
    assert(exec(units, texts, heap, out, f3, Seq::empty(), (fuel - 3) as nat) == exec(units, texts, heap, out, g0, callers, (fuel - 4) as nat));
    assert(exec(units, texts, heap, out, f2, Seq::empty(), (fuel - 2) as nat) == exec(units, texts, heap, out, f3, Seq::empty(), (fuel - 3) as nat));
    assert(exec(units, texts, heap, out, f1, Seq::empty(), (fuel - 1) as nat) == exec(units, texts, heap, out, f2, Seq::empty(), (fuel - 2) as nat));
}

} // verus!
