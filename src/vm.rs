//! The stack machine that executes a chunk.
use vstd::prelude::*;
use std::collections::HashMap;
use crate::chunk::{decode, op_byte, Chunk, OpCode};
use crate::compile::{
    binary_ops, code_program, const_ok, constants_program, is_report, pool_program, report,
    too_many_first, valid_program, Compiler,
};
use crate::number::{
    is_nan, number_eq, number_greater, number_less, number_lt, number_neg, number_negate, ArithOp,
    NumberHost,
};
use crate::object::{interned, Obj, ObjString, ObjType, StringTable};
use crate::scanner::{skip_ws, Token, TokenType};
use crate::text::{chars_of, decimal, push_chars, push_decimal, push_str, string_of};
use crate::value::{
    is_falsey, is_string, print_value, shown, string_ref, values_equal, BoolAsValue, NumberAsValue,
    ObjAsValue, Value, ValueType,
};

verus! {

broadcast use vstd::std_specs::hash::group_hash_axioms;

/// What a language-level runtime error complains about.
#[derive(Clone, Copy, Debug, PartialEq, Eq, Structural)]
pub enum RuntimeErrorKind {
    OperandMustBeNumber,
    OperandsMustBeNumbers,
    OperandsMustBeNumbersOrStrings,
    /// The global named by this interned string was never defined.
    UndefinedVariable(ObjString),
}

/// The outcome of executing one instruction.
#[derive(Clone, Copy, Debug, PartialEq, Eq, Structural)]
pub enum StepResult {
    /// The instruction is done; execution goes on.
    Continue,
    /// A `print` popped this value; it is to be shown.
    Print(Value),
    /// Both number operands were popped; the result of `a op b` is to be pushed.
    Arith(ArithOp, u64, u64),
    /// A `return` was reached.
    Return,
    /// A runtime error; the machine state is as before the instruction.
    Error(RuntimeErrorKind),
    /// The chunk is malformed (a stack underflow, an unknown opcode, a bad
    /// operand): a broken invariant, not a language-level error.
    Fault,
}

/// The overall outcome of `interpret`.
#[derive(Clone, Copy, Debug, PartialEq, Eq, Structural)]
pub enum InterpretResult {
    InterpretOk,
    InterpretCompileError,
    InterpretRuntimeError,
    /// Execution hit malformed bytecode; the embedding program should abort.
    InterpretInternalFault,
}

/// The virtual machine: the installed chunk, the instruction pointer, the
/// operand stack, and the tables that persist from one `interpret` to the next.
pub struct VM {
    pub chunk: Chunk,
    pub ip: usize,
    pub stack: Vec<Value>,
    pub strings: StringTable,
    /// Globals, keyed by the slot of their interned name.
    pub globals: HashMap<usize, Value>,
    /// Everything shown so far: printed values and error reports, one line each.
    pub output: Vec<String>,
}

impl VM {
    pub open spec fn wf(&self) -> bool {
        &&& self.strings.wf()
        &&& self.chunk.wf()
        &&& self.ip <= self.chunk.code@.len()
        &&& forall|i: int| 0 <= i < self.chunk.constants.values@.len()
            ==> ref_valid(#[trigger] self.chunk.constants.values@[i], self.strings@)
    }
}

/// The tables, the chunk and the output are as before.
pub open spec fn same_tables(o: VM, n: VM) -> bool {
    &&& n.chunk.code@ == o.chunk.code@
    &&& n.chunk.constants.values@ == o.chunk.constants.values@
    &&& n.chunk.lines@ == o.chunk.lines@
    &&& n.globals@ == o.globals@
    &&& n.strings@ == o.strings@
    &&& n.output@ == o.output@
}

/// Nothing changed.
pub open spec fn unchanged(o: VM, n: VM) -> bool {
    &&& same_tables(o, n)
    &&& n.stack@ == o.stack@
    &&& n.ip == o.ip
}

/// The stack became `s` and the instruction pointer moved `width` bytes on.
pub open spec fn moved(o: VM, n: VM, s: Seq<Value>, width: int) -> bool {
    &&& n.stack@ == s
    &&& n.ip == o.ip + width
    &&& n.chunk.code@ == o.chunk.code@
    &&& n.chunk.constants.values@ == o.chunk.constants.values@
    &&& n.chunk.lines@ == o.chunk.lines@
    &&& n.output@ == o.output@
}

/// The value `k` places below the top of the stack.
pub open spec fn peek_at(s: Seq<Value>, k: int) -> Value {
    s[s.len() - 1 - k]
}

pub open spec fn is_number(v: Value) -> bool {
    v.value_type is ValNumber
}

pub open spec fn num(v: Value) -> u64 {
    v.value_type->ValNumber_0
}

pub open spec fn number_value(z: u64) -> Value {
    Value { value_type: ValueType::ValNumber(z) }
}

pub open spec fn bool_value(b: bool) -> Value {
    Value { value_type: ValueType::ValBool(b) }
}

pub open spec fn string_value(k: usize) -> Value {
    Value { value_type: ValueType::ValObj(Obj { type_of_object: ObjType::ObjString(ObjString { index: k }) }) }
}

/// The constant named by the operand byte after the opcode, if the chunk has one.
pub open spec fn operand(o: VM) -> Option<Value> {
    let code = o.chunk.code@;
    if o.ip + 1 < code.len() && (code[o.ip + 1] as int) < o.chunk.constants.values@.len() {
        Some(o.chunk.constants.values@[code[o.ip + 1] as int])
    } else {
        None
    }
}

/// The interned name that a global instruction's operand refers to.
pub open spec fn operand_name(o: VM) -> Option<ObjString> {
    match operand(o) {
        Some(v) => if is_string(v) { Some(string_ref(v)) } else { None },
        None => None,
    }
}

/// A binary instruction on two numbers.
pub open spec fn numeric_step(o: VM, n: VM, r: StepResult, op: ArithOp, err: RuntimeErrorKind) -> bool {
    let s = o.stack@;
    if s.len() < 2 {
        r == StepResult::Fault && unchanged(o, n)
    } else if is_number(peek_at(s, 0)) && is_number(peek_at(s, 1)) {
        &&& r == StepResult::Arith(op, num(peek_at(s, 1)), num(peek_at(s, 0)))
        &&& moved(o, n, s.drop_last().drop_last(), 1)
        &&& n.globals@ == o.globals@
        &&& n.strings@ == o.strings@
    } else {
        r == StepResult::Error(err) && unchanged(o, n)
    }
}

/// A comparison of two numbers; `greater` picks `>` over `<`.
pub open spec fn compare_step(o: VM, n: VM, r: StepResult, greater: bool) -> bool {
    let s = o.stack@;
    if s.len() < 2 {
        r == StepResult::Fault && unchanged(o, n)
    } else if is_number(peek_at(s, 0)) && is_number(peek_at(s, 1)) {
        let a = num(peek_at(s, 1));
        let b = num(peek_at(s, 0));
        let res = if greater { number_lt(b, a) } else { number_lt(a, b) };
        &&& r == StepResult::Continue
        &&& moved(o, n, s.drop_last().drop_last().push(bool_value(res)), 1)
        &&& n.globals@ == o.globals@
        &&& n.strings@ == o.strings@
    } else {
        r == StepResult::Error(RuntimeErrorKind::OperandsMustBeNumbers) && unchanged(o, n)
    }
}

/// What executing the instruction at `o.ip` does.
pub open spec fn step_ok(o: VM, n: VM, r: StepResult) -> bool {
    let code = o.chunk.code@;
    let s = o.stack@;
    if o.ip >= code.len() || decode(code[o.ip as int]) is None {
        r == StepResult::Fault && unchanged(o, n)
    } else {
        let tables = n.globals@ == o.globals@ && n.strings@ == o.strings@;
        match decode(code[o.ip as int])->0 {
            OpCode::OpConstant => match operand(o) {
                Some(v) => r == StepResult::Continue && moved(o, n, s.push(v), 2) && tables,
                None => r == StepResult::Fault && unchanged(o, n),
            },
            OpCode::OpNil => r == StepResult::Continue && tables
                && moved(o, n, s.push(Value { value_type: ValueType::ValNil }), 1),
            OpCode::OpTrue => r == StepResult::Continue && tables
                && moved(o, n, s.push(bool_value(true)), 1),
            OpCode::OpFalse => r == StepResult::Continue && tables
                && moved(o, n, s.push(bool_value(false)), 1),
            OpCode::OpPop => if s.len() < 1 {
                r == StepResult::Fault && unchanged(o, n)
            } else {
                r == StepResult::Continue && moved(o, n, s.drop_last(), 1) && tables
            },
            OpCode::OpGetGlobal => match operand_name(o) {
                None => r == StepResult::Fault && unchanged(o, n),
                Some(name) => if o.globals@.contains_key(name.index) {
                    r == StepResult::Continue && tables
                        && moved(o, n, s.push(o.globals@[name.index]), 2)
                } else {
                    r == StepResult::Error(RuntimeErrorKind::UndefinedVariable(name))
                        && unchanged(o, n)
                },
            },
            OpCode::OpDefineGlobal => match operand_name(o) {
                None => r == StepResult::Fault && unchanged(o, n),
                Some(name) => if s.len() < 1 {
                    r == StepResult::Fault && unchanged(o, n)
                } else {
                    &&& r == StepResult::Continue
                    &&& moved(o, n, s.drop_last(), 2)
                    &&& n.globals@ == o.globals@.insert(name.index, s.last())
                    &&& n.strings@ == o.strings@
                },
            },
            OpCode::OpSetGlobal => match operand_name(o) {
                None => r == StepResult::Fault && unchanged(o, n),
                Some(name) => if s.len() < 1 {
                    r == StepResult::Fault && unchanged(o, n)
                } else if o.globals@.contains_key(name.index) {
                    &&& r == StepResult::Continue
                    &&& moved(o, n, s, 2)
                    &&& n.globals@ == o.globals@.insert(name.index, s.last())
                    &&& n.strings@ == o.strings@
                } else {
                    r == StepResult::Error(RuntimeErrorKind::UndefinedVariable(name))
                        && unchanged(o, n)
                },
            },
            OpCode::OpEqual => if s.len() < 2 {
                r == StepResult::Fault && unchanged(o, n)
            } else {
                r == StepResult::Continue && tables && moved(
                    o,
                    n,
                    s.drop_last().drop_last().push(
                        bool_value(values_equal(peek_at(s, 1), peek_at(s, 0))),
                    ),
                    1,
                )
            },
            OpCode::OpGreater => compare_step(o, n, r, true),
            OpCode::OpLess => compare_step(o, n, r, false),
            OpCode::OpAdd => if s.len() < 2 {
                r == StepResult::Fault && unchanged(o, n)
            } else if is_string(peek_at(s, 0)) && is_string(peek_at(s, 1)) {
                let a = string_ref(peek_at(s, 1)).index;
                let b = string_ref(peek_at(s, 0)).index;
                if a < o.strings@.len() && b < o.strings@.len() {
                    exists|k: usize|
                        {
                            &&& interned(o.strings@, n.strings@, o.strings@[a as int] + o.strings@[b as int], k as int)
                            &&& r == StepResult::Continue
                            &&& moved(o, n, s.drop_last().drop_last().push(string_value(k)), 1)
                            &&& n.globals@ == o.globals@
                        }
                } else {
                    r == StepResult::Fault && unchanged(o, n)
                }
            } else if is_number(peek_at(s, 0)) && is_number(peek_at(s, 1)) {
                r == StepResult::Arith(ArithOp::Add, num(peek_at(s, 1)), num(peek_at(s, 0)))
                    && moved(o, n, s.drop_last().drop_last(), 1) && tables
            } else {
                r == StepResult::Error(RuntimeErrorKind::OperandsMustBeNumbersOrStrings)
                    && unchanged(o, n)
            },
            OpCode::OpSubtract => numeric_step(o, n, r, ArithOp::Subtract, RuntimeErrorKind::OperandsMustBeNumbers),
            OpCode::OpMultiply => numeric_step(o, n, r, ArithOp::Multiply, RuntimeErrorKind::OperandsMustBeNumbers),
            OpCode::OpDivide => numeric_step(o, n, r, ArithOp::Divide, RuntimeErrorKind::OperandsMustBeNumbers),
            OpCode::OpNot => if s.len() < 1 {
                r == StepResult::Fault && unchanged(o, n)
            } else {
                r == StepResult::Continue && tables
                    && moved(o, n, s.drop_last().push(bool_value(is_falsey(s.last()))), 1)
            },
            OpCode::OpNegate => if s.len() < 1 {
                r == StepResult::Fault && unchanged(o, n)
            } else if is_number(s.last()) {
                r == StepResult::Continue && tables && moved(
                    o,
                    n,
                    s.drop_last().push(Value { value_type: ValueType::ValNumber(number_neg(num(s.last()))) }),
                    1,
                )
            } else {
                r == StepResult::Error(RuntimeErrorKind::OperandMustBeNumber) && unchanged(o, n)
            },
            OpCode::OpPrint => if s.len() < 1 {
                r == StepResult::Fault && unchanged(o, n)
            } else {
                r == StepResult::Print(s.last()) && tables && moved(o, n, s.drop_last(), 1)
            },
            OpCode::OpReturn => r == StepResult::Return && unchanged(o, n),
        }
    }
}

impl VM {
    pub fn push(&mut self, value: Value)
        ensures
            final(self).stack@ == old(self).stack@.push(value),
            final(self).ip == old(self).ip,
            same_tables(*old(self), *final(self)),
            final(self).wf() == old(self).wf(),
    {
        self.stack.push(value);
    }

    /// Removes and returns the top of the stack.
    pub fn pop(&mut self) -> (v: Value)
        requires
            old(self).stack@.len() > 0,
        ensures
            v == old(self).stack@.last(),
            final(self).stack@ == old(self).stack@.drop_last(),
            final(self).ip == old(self).ip,
            same_tables(*old(self), *final(self)),
            final(self).wf() == old(self).wf(),
    {
        self.stack.pop().unwrap()
    }

    /// The value `distance` places below the top of the stack.
    pub fn peek(&self, distance: usize) -> (v: Value)
        requires
            distance < self.stack@.len(),
        ensures
            v == peek_at(self.stack@, distance as int),
    {
        self.stack[self.stack.len() - 1 - distance]
    }

    /// The constant named by the operand byte of the current instruction.
    pub fn read_constant(&self) -> (r: Option<Value>)
        ensures
            r == operand(*self),
    {
        let n = self.chunk.code.len();
        if self.ip < n && self.ip + 1 < n {
            let k = self.chunk.code[self.ip + 1] as usize;
            if k < self.chunk.constants.values.len() {
                return Some(self.chunk.constants.values[k]);
            }
        }
        None
    }

    /// The interned name that the operand of the current instruction refers to.
    pub fn read_string(&self) -> (r: Option<ObjString>)
        ensures
            r == operand_name(*self),
    {
        match self.read_constant() {
            Some(v) => if v.IsString() { Some(v.GetString()) } else { None },
            None => None,
        }
    }

    /// Binds `key` to `value`; true when `key` was not bound before.
    #[allow(non_snake_case)]
    pub fn TableSet(&mut self, key: ObjString, value: Value) -> (is_new: bool)
        ensures
            final(self).globals@ == old(self).globals@.insert(key.index, value),
            is_new == !old(self).globals@.contains_key(key.index),
            final(self).stack@ == old(self).stack@,
            final(self).ip == old(self).ip,
            final(self).strings@ == old(self).strings@,
            final(self).output@ == old(self).output@,
            final(self).chunk == old(self).chunk,
            final(self).wf() == old(self).wf(),
    {
        let prior = self.globals.insert(key.index, value);
        prior.is_none()
    }

    /// Unbinds `key`; true when it was bound.
    #[allow(non_snake_case)]
    pub fn TableDelete(&mut self, key: ObjString) -> (was_bound: bool)
        ensures
            final(self).globals@ == old(self).globals@.remove(key.index),
            was_bound == old(self).globals@.contains_key(key.index),
            final(self).stack@ == old(self).stack@,
            final(self).ip == old(self).ip,
            final(self).strings@ == old(self).strings@,
            final(self).output@ == old(self).output@,
            final(self).chunk == old(self).chunk,
            final(self).wf() == old(self).wf(),
    {
        let prior = self.globals.remove(&key.index);
        prior.is_some()
    }

    /// The value bound to `key`, if any.
    #[allow(non_snake_case)]
    pub fn TableGet(&self, key: ObjString) -> (r: Option<Value>)
        ensures
            match r {
                Some(v) => self.globals@.contains_key(key.index) && v == self.globals@[key.index],
                None => !self.globals@.contains_key(key.index),
            },
    {
        match self.globals.get(&key.index) {
            Some(v) => Some(*v),
            None => None,
        }
    }

    /// Pops two strings and pushes their interned concatenation.
    #[allow(non_snake_case)]
    pub fn Concatenate(&mut self)
        requires
            old(self).wf(),
            old(self).stack@.len() >= 2,
            is_string(peek_at(old(self).stack@, 0)),
            is_string(peek_at(old(self).stack@, 1)),
            old(self).strings.holds(string_ref(peek_at(old(self).stack@, 0))),
            old(self).strings.holds(string_ref(peek_at(old(self).stack@, 1))),
        ensures
            final(self).wf(),
            ({
                let s = old(self).stack@;
                let a = string_ref(peek_at(s, 1)).index;
                let b = string_ref(peek_at(s, 0)).index;
                exists|k: usize|
                    {
                        &&& interned(old(self).strings@, final(self).strings@, old(self).strings@[a as int] + old(self).strings@[b as int], k as int)
                        &&& moved(*old(self), *final(self), s.drop_last().drop_last().push(string_value(k)), 0)
                        &&& final(self).globals@ == old(self).globals@
                    }
            }),
    {
        let ghost o = *self;
        let b = self.pop().GetString();
        let a = self.pop().GetString();
        let mut both = self.strings.content(a).clone();
        push_chars(&mut both, self.strings.content(b));
        let obj = Obj::CopyString(&mut self.strings, both);
        let ghost k = obj.type_of_object->ObjString_0.index;
        let v = ObjAsValue(obj);
        assert(v == string_value(k));
        self.push(v);
        assert(interned(o.strings@, self.strings@, o.strings@[a.index as int] + o.strings@[b.index as int], k as int));
        assert(moved(o, *self, o.stack@.drop_last().drop_last().push(string_value(k)), 0));
    }
}

impl VM {
    /// Executes the instruction at the instruction pointer. Arithmetic on two
    /// numbers is left to the caller, which pushes the result.
    pub fn step(&mut self) -> (r: StepResult)
        requires
            old(self).wf(),
        ensures
            final(self).wf(),
            step_ok(*old(self), *final(self), r),
            final(self).chunk.code@ == old(self).chunk.code@,
            final(self).output@ == old(self).output@,
            (r is Continue || r is Print || r is Arith) ==> final(self).ip > old(self).ip,
            (r is Error || r is Return || r is Fault) ==> final(self).ip == old(self).ip
                && final(self).stack@ == old(self).stack@,
            r is Error ==> final(self).ip < final(self).chunk.code@.len(),
            (r is Continue || r is Print || r is Arith) ==> final(self).ip <= final(self).chunk.code@.len(),
            r is Error ==> kind_valid(r->Error_0, final(self).strings@),
    {
        let ghost o = *self;
        let n = self.chunk.code.len();
        if self.ip >= n {
            return StepResult::Fault;
        }
        let op = match OpCode::from_byte(self.chunk.code[self.ip]) {
            Some(op) => op,
            None => return StepResult::Fault,
        };
        let depth = self.stack.len();
        match op {
            OpCode::OpConstant => match self.read_constant() {
                Some(v) => {
                    self.push(v);
                    self.ip = self.ip + 2;
                    StepResult::Continue
                },
                None => StepResult::Fault,
            },
            OpCode::OpNil => {
                self.push(crate::value::NilAsValue());
                self.ip = self.ip + 1;
                StepResult::Continue
            },
            OpCode::OpTrue => {
                self.push(BoolAsValue(true));
                self.ip = self.ip + 1;
                StepResult::Continue
            },
            OpCode::OpFalse => {
                self.push(BoolAsValue(false));
                self.ip = self.ip + 1;
                StepResult::Continue
            },
            OpCode::OpPop => {
                if depth < 1 {
                    return StepResult::Fault;
                }
                self.pop();
                self.ip = self.ip + 1;
                StepResult::Continue
            },
            OpCode::OpGetGlobal => {
                let name = match self.read_string() {
                    Some(name) => name,
                    None => return StepResult::Fault,
                };
                match self.TableGet(name) {
                    Some(v) => {
                        self.push(v);
                        self.ip = self.ip + 2;
                        StepResult::Continue
                    },
                    None => StepResult::Error(RuntimeErrorKind::UndefinedVariable(name)),
                }
            },
            OpCode::OpDefineGlobal => {
                let name = match self.read_string() {
                    Some(name) => name,
                    None => return StepResult::Fault,
                };
                if depth < 1 {
                    return StepResult::Fault;
                }
                let v = self.peek(0);
                self.TableSet(name, v);
                self.pop();
                self.ip = self.ip + 2;
                StepResult::Continue
            },
            OpCode::OpSetGlobal => {
                let name = match self.read_string() {
                    Some(name) => name,
                    None => return StepResult::Fault,
                };
                if depth < 1 {
                    return StepResult::Fault;
                }
                let v = self.peek(0);
                if self.TableSet(name, v) {
                    self.TableDelete(name);
                    assert(self.globals@ =~= o.globals@);
                    return StepResult::Error(RuntimeErrorKind::UndefinedVariable(name));
                }
                self.ip = self.ip + 2;
                StepResult::Continue
            },
            OpCode::OpEqual => {
                if depth < 2 {
                    return StepResult::Fault;
                }
                let b = self.pop();
                let a = self.pop();
                self.push(BoolAsValue(a.Equals(b)));
                self.ip = self.ip + 1;
                StepResult::Continue
            },
            OpCode::OpGreater | OpCode::OpLess => {
                if depth < 2 {
                    return StepResult::Fault;
                }
                if !(self.peek(0).IsNumber() && self.peek(1).IsNumber()) {
                    return StepResult::Error(RuntimeErrorKind::OperandsMustBeNumbers);
                }
                let b = self.pop().GetNumber();
                let a = self.pop().GetNumber();
                let res = match op {
                    OpCode::OpGreater => number_greater(a, b),
                    _ => number_less(a, b),
                };
                self.push(BoolAsValue(res));
                self.ip = self.ip + 1;
                StepResult::Continue
            },
            OpCode::OpAdd => {
                if depth < 2 {
                    return StepResult::Fault;
                }
                if self.peek(0).IsString() && self.peek(1).IsString() {
                    let count = self.strings.len();
                    if self.peek(0).GetString().index >= count || self.peek(1).GetString().index >= count {
                        return StepResult::Fault;
                    }
                    self.Concatenate();
                    self.ip = self.ip + 1;
                    StepResult::Continue
                } else if self.peek(0).IsNumber() && self.peek(1).IsNumber() {
                    let b = self.pop().GetNumber();
                    let a = self.pop().GetNumber();
                    self.ip = self.ip + 1;
                    StepResult::Arith(ArithOp::Add, a, b)
                } else {
                    StepResult::Error(RuntimeErrorKind::OperandsMustBeNumbersOrStrings)
                }
            },
            OpCode::OpSubtract | OpCode::OpMultiply | OpCode::OpDivide => {
                if depth < 2 {
                    return StepResult::Fault;
                }
                if !(self.peek(0).IsNumber() && self.peek(1).IsNumber()) {
                    return StepResult::Error(RuntimeErrorKind::OperandsMustBeNumbers);
                }
                let b = self.pop().GetNumber();
                let a = self.pop().GetNumber();
                self.ip = self.ip + 1;
                let arith = match op {
                    OpCode::OpSubtract => ArithOp::Subtract,
                    OpCode::OpMultiply => ArithOp::Multiply,
                    _ => ArithOp::Divide,
                };
                StepResult::Arith(arith, a, b)
            },
            OpCode::OpNot => {
                if depth < 1 {
                    return StepResult::Fault;
                }
                let v = self.pop();
                self.push(BoolAsValue(v.IsFalsey()));
                self.ip = self.ip + 1;
                StepResult::Continue
            },
            OpCode::OpNegate => {
                if depth < 1 {
                    return StepResult::Fault;
                }
                if !self.peek(0).IsNumber() {
                    return StepResult::Error(RuntimeErrorKind::OperandMustBeNumber);
                }
                let v = self.pop().GetNumber();
                self.push(NumberAsValue(number_negate(v)));
                self.ip = self.ip + 1;
                StepResult::Continue
            },
            OpCode::OpPrint => {
                if depth < 1 {
                    return StepResult::Fault;
                }
                let v = self.pop();
                self.ip = self.ip + 1;
                StepResult::Print(v)
            },
            OpCode::OpReturn => StepResult::Return,
        }
    }
}

/// The message of a runtime error.
pub open spec fn error_message(kind: RuntimeErrorKind, strings: Seq<Seq<char>>) -> Seq<char> {
    match kind {
        RuntimeErrorKind::OperandMustBeNumber => "Operand must be a number."@,
        RuntimeErrorKind::OperandsMustBeNumbers => "Operands must be numbers."@,
        RuntimeErrorKind::OperandsMustBeNumbersOrStrings => "Operands must be numbers or strings."@,
        RuntimeErrorKind::UndefinedVariable(name) => "Undefined variable '"@ + strings[name.index as int] + "'"@,
    }
}

/// Everything but the stack and the output is as before.
pub open spec fn same_but_stack_output(m: VM, n: VM) -> bool {
    &&& n.ip == m.ip
    &&& n.chunk.code@ == m.chunk.code@
    &&& n.chunk.constants.values@ == m.chunk.constants.values@
    &&& n.chunk.lines@ == m.chunk.lines@
    &&& n.globals@ == m.globals@
    &&& n.strings@ == m.strings@
}

/// A string value refers to an existing slot.
pub open spec fn ref_valid(v: Value, strings: Seq<Seq<char>>) -> bool {
    is_string(v) ==> string_ref(v).index < strings.len()
}

/// A runtime error names only existing slots.
pub open spec fn kind_valid(kind: RuntimeErrorKind, strings: Seq<Seq<char>>) -> bool {
    match kind {
        RuntimeErrorKind::UndefinedVariable(name) => name.index < strings.len(),
        _ => true,
    }
}

/// `v` was printed: one more output line, which shows `v` (a number as the
/// host formats it).
pub open spec fn printed(m: VM, n: VM, v: Value) -> bool {
    &&& same_but_stack_output(m, n)
    &&& n.stack@ == m.stack@
    &&& n.output@.len() == m.output@.len() + 1
    &&& n.output@.drop_last() == m.output@
    &&& !is_number(v) ==> n.output@.last()@ == shown(v, m.strings@)
}

/// The host's result of an arithmetic instruction was pushed: some number.
pub open spec fn pushed_number(m: VM, n: VM) -> bool {
    &&& same_but_stack_output(m, n)
    &&& n.output@ == m.output@
    &&& exists|z: u64| n.stack@ == m.stack@.push(#[trigger] number_value(z))
}

/// A runtime error was reported: the line of the failing instruction, then
/// the message; the stack is emptied.
pub open spec fn reported(m: VM, n: VM, kind: RuntimeErrorKind) -> bool {
    &&& same_but_stack_output(m, n)
    &&& n.stack@.len() == 0
    &&& n.output@.len() == m.output@.len() + 2
    &&& n.output@.subrange(0, m.output@.len() as int) == m.output@
    &&& n.output@[m.output@.len() as int]@ == "[line "@ + decimal(m.chunk.lines@[m.ip as int] as nat) + "] in script"@
    &&& n.output@[m.output@.len() as int + 1]@ == error_message(kind, m.strings@)
}

/// One turn of the execution loop: the instruction at `a.ip` executes as
/// `step_ok` says, leading to `m` with outcome `sr`, which is then handled,
/// leading to `b`, and execution goes on.
pub open spec fn iteration(a: VM, m: VM, sr: StepResult, b: VM) -> bool {
    &&& step_ok(a, m, sr)
    &&& match sr {
        StepResult::Continue => unchanged(m, b),
        StepResult::Print(v) => ref_valid(v, m.strings@) && printed(m, b, v),
        StepResult::Arith(_, _, _) => pushed_number(m, b),
        _ => false,
    }
}

/// The last turn of the execution loop, ending in `n` with result `r`.
pub open spec fn finished(a: VM, m: VM, sr: StepResult, n: VM, r: InterpretResult) -> bool {
    &&& step_ok(a, m, sr)
    &&& match sr {
        StepResult::Return => r == InterpretResult::InterpretOk && unchanged(m, n),
        StepResult::Error(kind) => r == InterpretResult::InterpretRuntimeError && reported(m, n, kind),
        StepResult::Print(v) => !ref_valid(v, m.strings@) && r == InterpretResult::InterpretInternalFault
            && unchanged(m, n),
        StepResult::Fault => r == InterpretResult::InterpretInternalFault && unchanged(m, n),
        _ => false,
    }
}

/// `heads[i]` is the state before turn `i`, `mids[i]` the state right after
/// its instruction and `rs[i]` that instruction's outcome; the last turn
/// finishes in `n` with result `r`.
pub open spec fn run_trace(
    o: VM,
    n: VM,
    r: InterpretResult,
    heads: Seq<VM>,
    mids: Seq<VM>,
    rs: Seq<StepResult>,
) -> bool {
    &&& heads.len() >= 1
    &&& mids.len() == heads.len()
    &&& rs.len() == heads.len()
    &&& heads[0] == o
    &&& forall|i: int| 0 <= i < heads.len() - 1 ==> #[trigger] iteration(heads[i], mids[i], rs[i], heads[i + 1])
    &&& finished(heads.last(), mids.last(), rs.last(), n, r)
}

/// Running from `o` ends in `n` with result `r`: a sequence of instructions,
/// each executing as `step_ok` says.
pub open spec fn executes(o: VM, n: VM, r: InterpretResult) -> bool {
    exists|heads: Seq<VM>, mids: Seq<VM>, rs: Seq<StepResult>| #[trigger] run_trace(o, n, r, heads, mids, rs)
}

/// A trace in progress: the turns so far, the last head being the current state.
pub open spec fn partial_trace(o: VM, heads: Seq<VM>, mids: Seq<VM>, rs: Seq<StepResult>) -> bool {
    &&& heads.len() >= 1
    &&& mids.len() + 1 == heads.len()
    &&& rs.len() == mids.len()
    &&& heads[0] == o
    &&& forall|i: int| 0 <= i < mids.len() ==> #[trigger] iteration(heads[i], mids[i], rs[i], heads[i + 1])
}

proof fn lemma_trace_extend(o: VM, heads: Seq<VM>, mids: Seq<VM>, rs: Seq<StepResult>, m: VM, sr: StepResult, b: VM)
    requires
        partial_trace(o, heads, mids, rs),
        iteration(heads.last(), m, sr, b),
    ensures
        partial_trace(o, heads.push(b), mids.push(m), rs.push(sr)),
{
    let h2 = heads.push(b);
    let m2 = mids.push(m);
    let r2 = rs.push(sr);
    assert forall|i: int| 0 <= i < m2.len() implies #[trigger] iteration(h2[i], m2[i], r2[i], h2[i + 1]) by {
        if i < mids.len() {
            assert(iteration(heads[i], mids[i], rs[i], heads[i + 1]));
        }
    }
}

proof fn lemma_trace_finish(
    o: VM,
    heads: Seq<VM>,
    mids: Seq<VM>,
    rs: Seq<StepResult>,
    m: VM,
    sr: StepResult,
    n: VM,
    r: InterpretResult,
)
    requires
        partial_trace(o, heads, mids, rs),
        finished(heads.last(), m, sr, n, r),
    ensures
        executes(o, n, r),
{
    let m2 = mids.push(m);
    let r2 = rs.push(sr);
    assert forall|i: int| 0 <= i < heads.len() - 1 implies #[trigger] iteration(heads[i], m2[i], r2[i], heads[i + 1]) by {
        assert(iteration(heads[i], mids[i], rs[i], heads[i + 1]));
    }
    assert(run_trace(o, n, r, heads, m2, r2));
}

/// `s0` is the machine ready to run the chunk compiled from `src`: the
/// instruction pointer at 0, an empty stack, the globals and the output of `o`.
pub open spec fn installed(s0: VM, o: VM, src: Seq<char>) -> bool {
    &&& s0.wf()
    &&& s0.ip == 0
    &&& s0.stack@.len() == 0
    &&& s0.chunk.code@ == code_program(src, 0, 0).push(op_byte(OpCode::OpReturn))
    &&& s0.chunk.constants.values@.len() == constants_program(src, 0, 0)
    &&& s0.chunk.constants.values@.len() == pool_program(src, 0).len()
    &&& forall|i: int| 0 <= i < pool_program(src, 0).len()
        ==> const_ok(#[trigger] s0.chunk.constants.values@[i], pool_program(src, 0)[i], s0.strings@)
    &&& s0.globals@ == o.globals@
    &&& s0.output@ == o.output@
}

/// The output only grew.
pub open spec fn output_grew(o: VM, n: VM) -> bool {
    &&& o.output@.len() <= n.output@.len()
    &&& n.output@.subrange(0, o.output@.len() as int) == o.output@
}

impl VM {
    /// Reports a runtime error at the current instruction's line, then
    /// empties the stack.
    #[allow(non_snake_case)]
    pub fn RuntimeError(&mut self, kind: RuntimeErrorKind)
        requires
            old(self).wf(),
            old(self).ip < old(self).chunk.code@.len(),
            kind matches RuntimeErrorKind::UndefinedVariable(name) ==> old(self).strings.holds(name),
        ensures
            final(self).wf(),
            final(self).stack@.len() == 0,
            final(self).output@.len() == old(self).output@.len() + 2,
            final(self).output@.subrange(0, old(self).output@.len() as int) == old(self).output@,
            final(self).output@[old(self).output@.len() as int]@ == "[line "@ + decimal(
                old(self).chunk.lines@[old(self).ip as int] as nat,
            ) + "] in script"@,
            final(self).output@.last()@ == error_message(kind, old(self).strings@),
            final(self).globals@ == old(self).globals@,
            final(self).strings@ == old(self).strings@,
            final(self).chunk == old(self).chunk,
            final(self).ip == old(self).ip,
    {
        let line = self.chunk.lines[self.ip];
        let mut where_text: Vec<char> = Vec::new();
        push_str(&mut where_text, "[line ");
        push_decimal(&mut where_text, line as u64);
        push_str(&mut where_text, "] in script");
        let mut text: Vec<char> = Vec::new();
        match kind {
            RuntimeErrorKind::OperandMustBeNumber => push_str(&mut text, "Operand must be a number."),
            RuntimeErrorKind::OperandsMustBeNumbers => push_str(&mut text, "Operands must be numbers."),
            RuntimeErrorKind::OperandsMustBeNumbersOrStrings => push_str(&mut text, "Operands must be numbers or strings."),
            RuntimeErrorKind::UndefinedVariable(name) => {
                push_str(&mut text, "Undefined variable '");
                push_chars(&mut text, self.strings.content(name));
                push_str(&mut text, "'");
            },
        }
        proof {
            assert(text@ =~= error_message(kind, self.strings@));
        }
        let ghost before = self.output@;
        self.output.push(string_of(&where_text));
        self.output.push(string_of(&text));
        assert(self.output@.subrange(0, before.len() as int) =~= before);
        self.ResetStack();
    }

    /// Empties the operand stack.
    #[allow(non_snake_case)]
    pub fn ResetStack(&mut self)
        ensures
            final(self).stack@.len() == 0,
            final(self).ip == old(self).ip,
            same_tables(*old(self), *final(self)),
            final(self).chunk == old(self).chunk,
            final(self).strings == old(self).strings,
    {
        self.stack.clear();
    }
}

impl VM {
    /// Executes the installed chunk from the instruction pointer until a
    /// `return`, a runtime error or a fault. Numbers are added, subtracted,
    /// multiplied, divided and formatted by `host`.
    pub fn run<H: NumberHost>(&mut self, host: &H) -> (r: InterpretResult)
        requires
            old(self).wf(),
        ensures
            final(self).wf(),
            executes(*old(self), *final(self), r),
            output_grew(*old(self), *final(self)),
            final(self).chunk.code@ == old(self).chunk.code@,
            r != InterpretResult::InterpretCompileError,
            r == InterpretResult::InterpretOk ==> final(self).ip < final(self).chunk.code@.len()
                && decode(final(self).chunk.code@[final(self).ip as int]) == Some(OpCode::OpReturn),
            r == InterpretResult::InterpretRuntimeError ==> final(self).stack@.len() == 0
                && final(self).output@.len() >= old(self).output@.len() + 2
                && exists|kind: RuntimeErrorKind| final(self).output@.last()@ == error_message(kind, final(self).strings@),
            old(self).ip < old(self).chunk.code@.len() && decode(old(self).chunk.code@[old(self).ip as int])
                == Some(OpCode::OpReturn) ==> r == InterpretResult::InterpretOk && final(self).output@
                == old(self).output@,
    {
        assert(self.output@.subrange(0, self.output@.len() as int) =~= self.output@);
        let ghost mut heads: Seq<VM> = seq![*self];
        let ghost mut mids: Seq<VM> = Seq::empty();
        let ghost mut rs: Seq<StepResult> = Seq::empty();
        loop
            invariant
                self.wf(),
                output_grew(*old(self), *self),
                self.chunk.code@ == old(self).chunk.code@,
                old(self).ip < old(self).chunk.code@.len() && decode(old(self).chunk.code@[old(self).ip as int])
                    == Some(OpCode::OpReturn) ==> self.ip == old(self).ip && self.output@ == old(self).output@,
                partial_trace(*old(self), heads, mids, rs),
                heads.last() == *self,
            decreases self.chunk.code@.len() - self.ip,
        {
            let ghost before = self.output@;
            let sr = self.step();
            let ghost m = *self;
            match sr {
                StepResult::Continue => {},
                StepResult::Print(v) => {
                    if v.IsString() && v.GetString().index >= self.strings.len() {
                        proof {
                            lemma_trace_finish(*old(self), heads, mids, rs, m, sr, *self, InterpretResult::InterpretInternalFault);
                        }
                        return InterpretResult::InterpretInternalFault;
                    }
                    let line = print_value(v, &self.strings, host);
                    self.output.push(line);
                    assert(self.output@.subrange(0, before.len() as int) =~= before);
                    assert(self.output@.drop_last() =~= m.output@);
                },
                StepResult::Arith(op, a, b) => {
                    let x = host.arithmetic(op, a, b);
                    let v = NumberAsValue(x);
                    self.push(v);
                    assert(self.stack@ == m.stack@.push(number_value(x)));
                },
                StepResult::Return => {
                    assert(decode(self.chunk.code@[self.ip as int]) == Some(OpCode::OpReturn));
                    proof {
                        lemma_trace_finish(*old(self), heads, mids, rs, m, sr, *self, InterpretResult::InterpretOk);
                    }
                    return InterpretResult::InterpretOk;
                },
                StepResult::Error(kind) => {
                    self.RuntimeError(kind);
                    assert(self.output@.last()@ == error_message(kind, self.strings@));
                    assert(self.output@.subrange(0, before.len() as int) == before);
                    assert(self.output@.subrange(0, old(self).output@.len() as int) =~= old(self).output@);
                    proof {
                        lemma_trace_finish(*old(self), heads, mids, rs, m, sr, *self, InterpretResult::InterpretRuntimeError);
                    }
                    return InterpretResult::InterpretRuntimeError;
                },
                StepResult::Fault => {
                    proof {
                        lemma_trace_finish(*old(self), heads, mids, rs, m, sr, *self, InterpretResult::InterpretInternalFault);
                    }
                    return InterpretResult::InterpretInternalFault;
                },
            }
            proof {
                lemma_trace_extend(*old(self), heads, mids, rs, m, sr, *self);
                heads = heads.push(*self);
                mids = mids.push(m);
                rs = rs.push(sr);
            }
            assert(self.output@.subrange(0, old(self).output@.len() as int) =~= old(self).output@);
        }
    }

    /// Compiles `source`, installs the chunk and, when it compiled, runs it.
    /// Compile errors are reported to the output and nothing is executed;
    /// globals and interned strings persist from one call to the next. Line
    /// numbers are 32-bit, so the source must be shorter than `u32::MAX`
    /// characters.
    pub fn interpret<H: NumberHost>(&mut self, source: String, host: &H) -> (r: InterpretResult)
        requires
            old(self).wf(),
            source@.len() < u32::MAX,
        ensures
            final(self).wf(),
            output_grew(*old(self), *final(self)),
            r == InterpretResult::InterpretCompileError ==> final(self).globals@ == old(self).globals@
                && final(self).stack@ == old(self).stack@
                && final(self).output@.len() > old(self).output@.len()
                && final(self).output@.subrange(0, old(self).output@.len() as int) == old(self).output@
                && forall|k: int| old(self).output@.len() <= k < final(self).output@.len()
                    ==> is_report(source@, #[trigger] final(self).output@[k]@),
            r != InterpretResult::InterpretCompileError ==> exists|s0: VM| installed(s0, *old(self), source@)
                && #[trigger] executes(s0, *final(self), r),
            r != InterpretResult::InterpretCompileError ==> valid_program(source@),
            valid_program(source@) && constants_program(source@, 0, 0) <= crate::chunk::MAX_CONSTANTS
                ==> r != InterpretResult::InterpretCompileError,
            constants_program(source@, 0, 0) > crate::chunk::MAX_CONSTANTS ==> r == InterpretResult::InterpretCompileError,
            valid_program(source@) && constants_program(source@, 0, 0) > crate::chunk::MAX_CONSTANTS ==> exists|t: Token|
                final(self).output@[old(self).output@.len() as int]@ == #[trigger] report(
                    source@,
                    t,
                    "Too many constants in one chunk."@,
                ),
            r != InterpretResult::InterpretCompileError ==> final(self).chunk.code@ == code_program(
                source@,
                0,
                0,
            ).push(crate::chunk::op_byte(OpCode::OpReturn)),
            r == InterpretResult::InterpretRuntimeError ==> final(self).stack@.len() == 0
                && exists|kind: RuntimeErrorKind| final(self).output@.last()@ == error_message(kind, final(self).strings@),
            skip_ws(source@, 0, false) == source@.len() ==> r == InterpretResult::InterpretOk
                && final(self).output@ == old(self).output@,
    {
        assert(self.output@.subrange(0, self.output@.len() as int) =~= self.output@);
        let chars = chars_of(source.as_str());
        let mut table = StringTable::new();
        std::mem::swap(&mut table, &mut self.strings);
        let mut compiler = Compiler::new_compiler(table);
        let ok = compiler.compile(&chars, host);
        let ghost msgs = compiler.messages@;
        let ghost overflow_first: bool = msgs.len() > 0 && exists|t: Token|
            msgs[0]@ == #[trigger] report(source@, t, "Too many constants in one chunk."@);
        proof {
            if valid_program(source@) && constants_program(source@, 0, 0) > crate::chunk::MAX_CONSTANTS {
                assert(too_many_first(compiler));
                assert(overflow_first);
            }
            assert forall|k: int| 0 <= k < msgs.len() implies is_report(source@, #[trigger] msgs[k]@) by {
                assert(is_report(compiler.scanner.source@, compiler.messages@[k]@));
            }
        }
        self.ip = 0;
        std::mem::swap(&mut self.chunk, &mut compiler.chunk);
        std::mem::swap(&mut compiler.strings, &mut self.strings);
        let mut i: usize = 0;
        while i < compiler.messages.len()
            invariant
                self.wf(),
                self.ip == 0,
                i <= msgs.len(),
                compiler.messages@ == msgs,
                output_grew(*old(self), *self),
                self.globals@ == old(self).globals@,
                self.stack@ == old(self).stack@,
                forall|k: int| 0 <= k < msgs.len() ==> is_report(source@, #[trigger] msgs[k]@),
                (valid_program(source@) && constants_program(source@, 0, 0) > crate::chunk::MAX_CONSTANTS)
                    ==> overflow_first,
                overflow_first == (msgs.len() > 0 && exists|t: Token|
                    msgs[0]@ == #[trigger] report(source@, t, "Too many constants in one chunk."@)),
                ok ==> self.chunk.constants.values@.len() == pool_program(source@, 0).len(),
                ok ==> forall|j: int| 0 <= j < pool_program(source@, 0).len()
                    ==> const_ok(#[trigger] self.chunk.constants.values@[j], pool_program(source@, 0)[j], self.strings@),
                ok ==> self.chunk.code@ == code_program(source@, 0, 0).push(crate::chunk::op_byte(OpCode::OpReturn)),
                ok ==> self.chunk.constants.values@.len() == constants_program(source@, 0, 0),
                ok ==> valid_program(source@),
                !ok ==> msgs.len() > 0,
                ok == (msgs.len() == 0),
                valid_program(source@) && constants_program(source@, 0, 0) <= crate::chunk::MAX_CONSTANTS ==> ok,
                constants_program(source@, 0, 0) > crate::chunk::MAX_CONSTANTS ==> !ok,
                skip_ws(source@, 0, false) == source@.len() ==> ok && self.chunk.code@ == seq![crate::chunk::op_byte(OpCode::OpReturn)],
                self.output@ == old(self).output@ + msgs.subrange(0, i as int),
            decreases msgs.len() - i,
        {
            let ghost before = self.output@;
            self.output.push(compiler.messages[i].clone());
            assert(self.output@ =~= old(self).output@ + msgs.subrange(0, i + 1));
            assert(self.output@.subrange(0, before.len() as int) =~= before);
            assert(self.output@.subrange(0, old(self).output@.len() as int) =~= old(self).output@);
            i = i + 1;
        }
        proof {
            assert(msgs.subrange(0, i as int) =~= msgs);
            assert(self.output@ == old(self).output@ + msgs);
            if valid_program(source@) && constants_program(source@, 0, 0) > crate::chunk::MAX_CONSTANTS {
                assert(self.output@[old(self).output@.len() as int] == msgs[0]);
            }
        }
        if !ok {
            proof {
                assert forall|k: int| old(self).output@.len() <= k < self.output@.len()
                    implies is_report(source@, #[trigger] self.output@[k]@) by {
                    assert(self.output@[k] == msgs[k - old(self).output@.len()]);
                }
            }
            return InterpretResult::InterpretCompileError;
        }
        assert(msgs.len() == 0);
        assert(self.output@ =~= old(self).output@);
        self.ResetStack();
        proof {
            if skip_ws(source@, 0, false) == source@.len() {
                assert(self.chunk.code@ == seq![crate::chunk::op_byte(OpCode::OpReturn)]);
                assert(decode(self.chunk.code@[0]) == Some(OpCode::OpReturn));
            }
        }
        let ghost s0 = *self;
        assert(installed(s0, *old(self), source@));
        let r = self.run(host);
        assert(self.output@.subrange(0, old(self).output@.len() as int) =~= old(self).output@);
        assert(executes(s0, *self, r));
        r
    }
}

/// A machine with no chunk installed, an empty stack and empty tables.
pub fn init_vm() -> (vm: VM)
    ensures
        vm.wf(),
        vm.stack@.len() == 0,
        vm.globals@ == Map::<usize, Value>::empty(),
        vm.strings@.len() == 0,
        vm.output@.len() == 0,
        vm.chunk.code@.len() == 0,
{
    VM {
        chunk: crate::chunk::init_chunk(),
        ip: 0,
        stack: Vec::new(),
        strings: StringTable::new(),
        globals: HashMap::new(),
        output: Vec::new(),
    }
}

/// `a >= b` compiles to the code of `a < b` followed by a logical not, and
/// `a <= b` to the code of `a > b` followed by a logical not.
pub proof fn lemma_comparison_synthesis()
    ensures
        binary_ops(TokenType::TokenGreaterEqual) == binary_ops(TokenType::TokenLess).push(op_byte(OpCode::OpNot)),
        binary_ops(TokenType::TokenLessEqual) == binary_ops(TokenType::TokenGreater).push(op_byte(OpCode::OpNot)),
{
    assert(binary_ops(TokenType::TokenGreaterEqual) =~= binary_ops(TokenType::TokenLess).push(op_byte(OpCode::OpNot)));
    assert(binary_ops(TokenType::TokenLessEqual) =~= binary_ops(TokenType::TokenGreater).push(op_byte(OpCode::OpNot)));
}

/// Executing `<` then `!` on two numbers `a` and `b` leaves `!(a < b)` in
/// their place, for every pair of bit patterns; when neither is NaN that is
/// exactly IEEE-754 `a >= b`.
pub proof fn lemma_not_less(o: VM, m: VM, n: VM, r1: StepResult, r2: StepResult)
    requires
        step_ok(o, m, r1),
        step_ok(m, n, r2),
        o.ip + 1 < o.chunk.code@.len(),
        o.chunk.code@[o.ip as int] == op_byte(OpCode::OpLess),
        o.chunk.code@[o.ip + 1] == op_byte(OpCode::OpNot),
        o.stack@.len() >= 2,
        is_number(peek_at(o.stack@, 0)),
        is_number(peek_at(o.stack@, 1)),
    ensures
        ({
            let a = num(peek_at(o.stack@, 1));
            let b = num(peek_at(o.stack@, 0));
            &&& r1 == StepResult::Continue
            &&& r2 == StepResult::Continue
            &&& n.ip == o.ip + 2
            &&& n.stack@ == o.stack@.drop_last().drop_last().push(bool_value(!number_lt(a, b)))
            &&& (!is_nan(a) && !is_nan(b)) ==> (!number_lt(a, b) <==> (number_lt(b, a) || number_eq(a, b)))
        }),
{
    let s = o.stack@;
    let a = num(peek_at(s, 1));
    let b = num(peek_at(s, 0));
    assert(decode(op_byte(OpCode::OpLess)) == Some(OpCode::OpLess));
    assert(m.stack@ == s.drop_last().drop_last().push(bool_value(number_lt(a, b))));
    assert(decode(op_byte(OpCode::OpNot)) == Some(OpCode::OpNot));
    assert(m.chunk.code@[m.ip as int] == op_byte(OpCode::OpNot));
    assert(m.stack@.drop_last() =~= s.drop_last().drop_last());
}

/// Reading a global that was never defined is the runtime error
/// "Undefined variable" naming it; nothing else happens.
pub proof fn lemma_undefined_global(o: VM, n: VM, r: StepResult, name: ObjString)
    requires
        step_ok(o, n, r),
        o.ip < o.chunk.code@.len(),
        o.chunk.code@[o.ip as int] == op_byte(OpCode::OpGetGlobal),
        operand_name(o) == Some(name),
        !o.globals@.contains_key(name.index),
    ensures
        r == StepResult::Error(RuntimeErrorKind::UndefinedVariable(name)),
        unchanged(o, n),
{
    assert(decode(op_byte(OpCode::OpGetGlobal)) == Some(OpCode::OpGetGlobal));
}

/// After `var x = v;` binds `x`, reading `x` pushes `v`.
pub proof fn lemma_define_then_get(o: VM, m: VM, n: VM, r1: StepResult, r2: StepResult)
    requires
        step_ok(o, m, r1),
        step_ok(m, n, r2),
        o.ip + 2 < o.chunk.code@.len(),
        o.chunk.code@[o.ip as int] == op_byte(OpCode::OpDefineGlobal),
        o.chunk.code@[o.ip + 2] == op_byte(OpCode::OpGetGlobal),
        operand_name(o) is Some,
        operand_name(m) == operand_name(o),
        o.stack@.len() >= 1,
    ensures
        r1 == StepResult::Continue,
        r2 == StepResult::Continue,
        m.globals@[operand_name(o)->0.index] == o.stack@.last(),
        n.stack@ == o.stack@,
{
    assert(decode(op_byte(OpCode::OpDefineGlobal)) == Some(OpCode::OpDefineGlobal));
    assert(decode(op_byte(OpCode::OpGetGlobal)) == Some(OpCode::OpGetGlobal));
    assert(m.chunk.code@[m.ip as int] == op_byte(OpCode::OpGetGlobal));
    assert(o.stack@.drop_last().push(o.stack@.last()) =~= o.stack@);
}

/// A run that reaches a read of a global that was never defined stops there
/// with a runtime error: the report names the global, nothing else runs,
/// the globals are as they were and the stack is empty.
pub proof fn lemma_undefined_global_stops_run(a: VM, m: VM, sr: StepResult, n: VM, r: InterpretResult, name: ObjString)
    requires
        a.ip < a.chunk.code@.len(),
        a.chunk.code@[a.ip as int] == op_byte(OpCode::OpGetGlobal),
        operand_name(a) == Some(name),
        !a.globals@.contains_key(name.index),
        step_ok(a, m, sr),
        iteration(a, m, sr, n) || finished(a, m, sr, n, r),
    ensures
        !iteration(a, m, sr, n),
        r == InterpretResult::InterpretRuntimeError,
        n.stack@.len() == 0,
        n.globals@ == a.globals@,
        n.output@[a.output@.len() as int + 1]@ == error_message(RuntimeErrorKind::UndefinedVariable(name), a.strings@),
{
    assert(decode(op_byte(OpCode::OpGetGlobal)) == Some(OpCode::OpGetGlobal));
}

} // verus!
