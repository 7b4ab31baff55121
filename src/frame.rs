use std::collections::HashMap;
use vstd::prelude::*;
use crate::value::{binary_op, binary_result, unary_op, unary_result, BinaryOp, ErrorKind, UnaryOp, Value};

verus! {

broadcast use vstd::std_specs::hash::group_hash_axioms;

/// The control signal of a frame.
#[derive(Clone, Copy, Debug, PartialEq, Eq, Structural)]
pub enum Signal {
    Idle,
    Break,
    Return,
}

/// One activation record. `blocks` holds the handler index of each open loop
/// block, innermost last.
pub struct Frame {
    pub unit: usize,
    pub stack: Vec<Value>,
    pub locals: HashMap<usize, Value>,
    pub globals: HashMap<usize, Value>,
    pub blocks: Vec<usize>,
    pub pc: usize,
    pub ret: Value,
    pub signal: Signal,
}

/// What a frame holds, as mathematical values.
pub struct FrameModel {
    pub unit: usize,
    pub stack: Seq<Value>,
    pub locals: Map<usize, Value>,
    pub globals: Map<usize, Value>,
    pub blocks: Seq<usize>,
    pub pc: usize,
    pub ret: Value,
    pub signal: Signal,
}

impl View for Frame {
    type V = FrameModel;

    open spec fn view(&self) -> FrameModel {
        FrameModel {
            unit: self.unit,
            stack: self.stack@,
            locals: self.locals@,
            globals: self.globals@,
            blocks: self.blocks@,
            pc: self.pc,
            ret: self.ret,
            signal: self.signal,
        }
    }
}

/// The stack after building a slice from its `count` top elements.
pub open spec fn slice_model(s: Seq<Value>, count: usize) -> Result<Seq<Value>, ErrorKind> {
    if count != 2 && count != 3 {
        Err(ErrorKind::UnsupportedInstruction)
    } else if s.len() < count {
        Err(ErrorKind::StackUnderflow)
    } else {
        let base = s.len() - count;
        let b0 = bound_of(s[base]);
        let b1 = bound_of(s[base + 1]);
        let b2 = if count == 3 { bound_of(s[base + 2]) } else { Some(None) };
        if b0 is Some && b1 is Some && b2 is Some {
            Ok(s.subrange(0, base).push(Value::Slice(b0.unwrap(), b1.unwrap(), b2.unwrap())))
        } else {
            Err(ErrorKind::TypeMismatch)
        }
    }
}

/// Everything but the operand stack is the same in both frames.
pub open spec fn same_but_stack(a: &Frame, b: &Frame) -> bool {
    &&& a.unit == b.unit
    &&& a.locals@ == b.locals@
    &&& a.globals@ == b.globals@
    &&& a.blocks@ == b.blocks@
    &&& a.pc == b.pc
    &&& a.ret == b.ret
    &&& a.signal == b.signal
}

/// Two frames are equal in every observable part.
pub open spec fn same_frame(a: &Frame, b: &Frame) -> bool {
    same_but_stack(a, b) && a.stack@ == b.stack@
}

pub open spec fn pop2(s: Seq<Value>) -> Seq<Value> {
    s.subrange(0, s.len() - 2)
}

/// The value that a name resolves to: locals first, then globals.
pub open spec fn lookup(locals: Map<usize, Value>, globals: Map<usize, Value>, name: usize) -> Option<Value> {
    if locals.contains_key(name) {
        Some(locals[name])
    } else if globals.contains_key(name) {
        Some(globals[name])
    } else {
        None
    }
}

/// What a slice bound may be built from.
pub open spec fn bound_of(v: Value) -> Option<Option<i64>> {
    match v {
        Value::Int(n) => Some(Some(n)),
        Value::NoneValue => Some(None),
        _ => None,
    }
}

impl Frame {
    /// A fresh frame for the given unit over the given scope.
    pub fn new(unit: usize, scope: HashMap<usize, Value>) -> (f: Frame)
        ensures
            f.unit == unit,
            f.locals@ == scope@,
            f.globals@ == scope@,
            f.stack@ == Seq::<Value>::empty(),
            f.blocks@ == Seq::<usize>::empty(),
            f.pc == 0,
            f.ret == Value::NoneValue,
            f.signal == Signal::Idle,
    {
        let globals = scope.clone();
        Frame {
            unit,
            stack: Vec::new(),
            locals: scope,
            globals,
            blocks: Vec::new(),
            pc: 0,
            ret: Value::NoneValue,
            signal: Signal::Idle,
        }
    }

    /// Pops the top of the operand stack.
    pub fn pop(&mut self) -> (r: Result<Value, ErrorKind>)
        ensures
            same_but_stack(final(self), old(self)),
            old(self).stack@.len() > 0 ==> r == Ok::<Value, ErrorKind>(old(self).stack@.last())
                && final(self).stack@ == old(self).stack@.drop_last(),
            old(self).stack@.len() == 0 ==> r == Err::<Value, ErrorKind>(ErrorKind::StackUnderflow)
                && final(self).stack@ == old(self).stack@,
    {
        match self.stack.pop() {
            Some(v) => Ok(v),
            None => Err(ErrorKind::StackUnderflow),
        }
    }

    /// Swaps the two top elements.
    pub fn rot_two(&mut self) -> (r: Result<(), ErrorKind>)
        ensures
            same_but_stack(final(self), old(self)),
            old(self).stack@.len() >= 2 ==> r is Ok && final(self).stack@ == pop2(old(self).stack@).push(
                old(self).stack@.last(),
            ).push(old(self).stack@[old(self).stack@.len() - 2]),
            old(self).stack@.len() < 2 ==> r == Err::<(), ErrorKind>(ErrorKind::StackUnderflow)
                && final(self).stack@ == old(self).stack@,
    {
        if self.stack.len() < 2 {
            return Err(ErrorKind::StackUnderflow);
        }
        let tos = self.stack.pop().unwrap();
        let tos1 = self.stack.pop().unwrap();
        self.stack.push(tos);
        self.stack.push(tos1);
        Ok(())
    }

    /// Replaces the two top elements `x` (deeper) and `y` by `x op y`. On
    /// failure the frame is left exactly as it was.
    pub fn binary(&mut self, op: BinaryOp) -> (r: Result<(), ErrorKind>)
        ensures
            old(self).stack@.len() < 2 ==> r == Err::<(), ErrorKind>(ErrorKind::StackUnderflow),
            old(self).stack@.len() >= 2 ==> {
                let s = old(self).stack@;
                match binary_result(op, s[s.len() - 2], s.last()) {
                    Ok(v) => r is Ok && final(self).stack@ == pop2(s).push(v),
                    Err(e) => r == Err::<(), ErrorKind>(e),
                }
            },
            r is Err ==> same_frame(final(self), old(self)),
            same_but_stack(final(self), old(self)),
    {
        let n = self.stack.len();
        if n < 2 {
            return Err(ErrorKind::StackUnderflow);
        }
        let x = self.stack[n - 2];
        let y = self.stack[n - 1];
        let v = binary_op(op, x, y)?;
        self.stack.pop();
        self.stack.pop();
        self.stack.push(v);
        Ok(())
    }

    /// Replaces the top element `x` by `op x`. On failure the frame is left
    /// exactly as it was.
    pub fn unary(&mut self, op: UnaryOp) -> (r: Result<(), ErrorKind>)
        ensures
            old(self).stack@.len() == 0 ==> r == Err::<(), ErrorKind>(ErrorKind::StackUnderflow),
            old(self).stack@.len() > 0 ==> match unary_result(op, old(self).stack@.last()) {
                Ok(v) => r is Ok && final(self).stack@ == old(self).stack@.drop_last().push(v),
                Err(e) => r == Err::<(), ErrorKind>(e),
            },
            r is Err ==> same_frame(final(self), old(self)),
            same_but_stack(final(self), old(self)),
    {
        let n = self.stack.len();
        if n == 0 {
            return Err(ErrorKind::StackUnderflow);
        }
        let v = unary_op(op, self.stack[n - 1])?;
        self.stack.pop();
        self.stack.push(v);
        Ok(())
    }

    /// Pops the top of the stack into the locals under `name`.
    pub fn store(&mut self, name: usize) -> (r: Result<(), ErrorKind>)
        ensures
            old(self).stack@.len() == 0 ==> r == Err::<(), ErrorKind>(ErrorKind::StackUnderflow)
                && same_frame(final(self), old(self)),
            old(self).stack@.len() > 0 ==> r is Ok && final(self).stack@ == old(self).stack@.drop_last()
                && final(self).locals@ == old(self).locals@.insert(name, old(self).stack@.last()),
            final(self).unit == old(self).unit,
            final(self).globals@ == old(self).globals@,
            final(self).blocks@ == old(self).blocks@,
            final(self).pc == old(self).pc,
            final(self).ret == old(self).ret,
            final(self).signal == old(self).signal,
    {
        let v = self.pop()?;
        self.locals.insert(name, v);
        Ok(())
    }

    /// Pushes the value bound to `name`: from the locals first unless
    /// `global_only`, then from the globals.
    pub fn load(&mut self, name: usize, global_only: bool) -> (r: Result<(), ErrorKind>)
        ensures
            same_but_stack(final(self), old(self)),
            ({
                let found = if global_only {
                    if old(self).globals@.contains_key(name) {
                        Some(old(self).globals@[name])
                    } else {
                        None
                    }
                } else {
                    lookup(old(self).locals@, old(self).globals@, name)
                };
                match found {
                    Some(v) => r is Ok && final(self).stack@ == old(self).stack@.push(v),
                    None => r == Err::<(), ErrorKind>(ErrorKind::UnboundName) && final(self).stack@
                        == old(self).stack@,
                }
            }),
    {
        if !global_only {
            match self.locals.get(&name) {
                Some(v) => {
                    self.stack.push(*v);
                    return Ok(());
                },
                None => {},
            }
        }
        match self.globals.get(&name) {
            Some(v) => {
                self.stack.push(*v);
                Ok(())
            },
            None => Err(ErrorKind::UnboundName),
        }
    }

    /// Builds a slice from the `count` top elements (2 or 3), each an integer
    /// or the none value; a missing step is absent.
    pub fn build_slice(&mut self, count: usize) -> (r: Result<(), ErrorKind>)
        ensures
            same_but_stack(final(self), old(self)),
            match slice_model(old(self).stack@, count) {
                Ok(s) => r is Ok && final(self).stack@ == s,
                Err(e) => r == Err::<(), ErrorKind>(e) && final(self).stack@ == old(self).stack@,
            },
            count != 2 && count != 3 ==> r == Err::<(), ErrorKind>(ErrorKind::UnsupportedInstruction)
                && final(self).stack@ == old(self).stack@,
            (count == 2 || count == 3) && old(self).stack@.len() < count ==> r == Err::<(), ErrorKind>(
                ErrorKind::StackUnderflow,
            ) && final(self).stack@ == old(self).stack@,
            (count == 2 || count == 3) && old(self).stack@.len() >= count ==> {
                let s = old(self).stack@;
                let base = s.len() - count;
                let b0 = bound_of(s[base]);
                let b1 = bound_of(s[base + 1]);
                let b2 = if count == 3 { bound_of(s[base + 2]) } else { Some(None) };
                if b0 is Some && b1 is Some && b2 is Some {
                    r is Ok && final(self).stack@ == s.subrange(0, base).push(
                        Value::Slice(b0.unwrap(), b1.unwrap(), b2.unwrap()),
                    )
                } else {
                    r == Err::<(), ErrorKind>(ErrorKind::TypeMismatch) && final(self).stack@ == s
                }
            },
    {
        if count != 2 && count != 3 {
            return Err(ErrorKind::UnsupportedInstruction);
        }
        let n = self.stack.len();
        if n < count {
            return Err(ErrorKind::StackUnderflow);
        }
        let base = n - count;
        let b0 = slice_bound(self.stack[base]);
        let b1 = slice_bound(self.stack[base + 1]);
        let b2 = if count == 3 { slice_bound(self.stack[base + 2]) } else { Some(None) };
        match (b0, b1, b2) {
            (Some(start), Some(stop), Some(step)) => {
                self.stack.truncate(base);
                self.stack.push(Value::Slice(start, stop, step));
                Ok(())
            },
            _ => Err(ErrorKind::TypeMismatch),
        }
    }

    /// Pops a value and jumps to `target` exactly when it is the boolean `when`.
    pub fn jump_if(&mut self, when: bool, target: usize) -> (r: Result<(), ErrorKind>)
        ensures
            final(self).unit == old(self).unit,
            final(self).locals@ == old(self).locals@,
            final(self).globals@ == old(self).globals@,
            final(self).blocks@ == old(self).blocks@,
            final(self).ret == old(self).ret,
            final(self).signal == old(self).signal,
            old(self).stack@.len() == 0 ==> r == Err::<(), ErrorKind>(ErrorKind::StackUnderflow)
                && same_frame(final(self), old(self)),
            old(self).stack@.len() > 0 ==> r is Ok && final(self).stack@ == old(self).stack@.drop_last()
                && final(self).pc == (if old(self).stack@.last() == Value::Bool(when) {
                target
            } else {
                old(self).pc
            }),
    {
        let v = self.pop()?;
        if v == Value::Bool(when) {
            self.pc = target;
        }
        Ok(())
    }

    /// Opens a loop block whose break resumes at `handler`.
    pub fn setup_loop(&mut self, handler: usize)
        ensures
            final(self).blocks@ == old(self).blocks@.push(handler),
            final(self).stack@ == old(self).stack@,
            final(self).pc == old(self).pc,
            final(self).unit == old(self).unit,
            final(self).locals@ == old(self).locals@,
            final(self).globals@ == old(self).globals@,
            final(self).ret == old(self).ret,
            final(self).signal == old(self).signal,
    {
        self.blocks.push(handler);
    }

    /// Closes the innermost block on normal exit.
    pub fn pop_block(&mut self)
        ensures
            final(self).blocks@ == (if old(self).blocks@.len() > 0 {
                old(self).blocks@.drop_last()
            } else {
                old(self).blocks@
            }),
            final(self).stack@ == old(self).stack@,
            final(self).pc == old(self).pc,
            final(self).unit == old(self).unit,
            final(self).locals@ == old(self).locals@,
            final(self).globals@ == old(self).globals@,
            final(self).ret == old(self).ret,
            final(self).signal == old(self).signal,
    {
        self.blocks.pop();
    }

    /// Breaks out of the innermost loop block: the block is popped, execution
    /// resumes at its handler, and the signal is back to idle.
    pub fn unwind_break(&mut self) -> (r: Result<(), ErrorKind>)
        ensures
            old(self).blocks@.len() > 0 ==> r is Ok && final(self).pc == old(self).blocks@.last()
                && final(self).blocks@ == old(self).blocks@.drop_last() && final(self).signal
                == Signal::Idle,
            old(self).blocks@.len() == 0 ==> r == Err::<(), ErrorKind>(ErrorKind::MalformedBytecode)
                && final(self).blocks@ == old(self).blocks@ && final(self).pc == old(self).pc,
            final(self).stack@ == old(self).stack@,
            final(self).unit == old(self).unit,
            final(self).locals@ == old(self).locals@,
            final(self).globals@ == old(self).globals@,
            final(self).ret == old(self).ret,
    {
        self.signal = Signal::Break;
        match self.blocks.pop() {
            Some(handler) => {
                self.pc = handler;
                self.signal = Signal::Idle;
                Ok(())
            },
            None => Err(ErrorKind::MalformedBytecode),
        }
    }

    /// Pops the return value and ends the frame.
    pub fn return_value(&mut self) -> (r: Result<(), ErrorKind>)
        ensures
            old(self).stack@.len() > 0 ==> r is Ok && final(self).ret == old(self).stack@.last()
                && final(self).signal == Signal::Return && final(self).stack@ == old(
                self,
            ).stack@.drop_last(),
            old(self).stack@.len() == 0 ==> r == Err::<(), ErrorKind>(ErrorKind::StackUnderflow)
                && same_frame(final(self), old(self)),
            final(self).unit == old(self).unit,
            final(self).locals@ == old(self).locals@,
            final(self).globals@ == old(self).globals@,
            final(self).blocks@ == old(self).blocks@,
            final(self).pc == old(self).pc,
    {
        let v = self.pop()?;
        self.ret = v;
        self.signal = Signal::Return;
        Ok(())
    }
}

fn slice_bound(v: Value) -> (r: Option<Option<i64>>)
    ensures
        r == bound_of(v),
{
    match v {
        Value::Int(n) => Some(Some(n)),
        Value::NoneValue => Some(None),
        _ => None,
    }
}

} // verus!
