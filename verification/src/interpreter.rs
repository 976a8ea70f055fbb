//! The execution engine: word dispatch, native primitives, and the
//! variable/constant store, all owned by one interpreter instance.

use std::io::Write;
use vstd::prelude::*;

use crate::errors::ForthError;
use crate::lexer::Token;
use crate::lexer::TokV;
use crate::lexer::seq_tokv;
use crate::lexer::spec_lex;
use crate::lexer::tokenize;
use crate::lexer::tokv;
use crate::literal::CmpRes;
use crate::literal::LitV;
use crate::literal::Literal;
use crate::literal::Pointer;
use crate::literal::clone_literal;
use crate::literal::cmp_literal;
use crate::literal::cmp_litv;
use crate::literal::display_literal;
use crate::literal::lit_display;
use crate::literal::literal_eq;
use crate::literal::litv;
use crate::literal::seq_litv;
use crate::stack::Stack;

verus! {

/// A named slot of the variable store. A variable starts with no value;
/// reading an unset variable yields the integer zero.
#[derive(Debug)]
pub struct Variable {
    name: String,
    value: Option<Literal>,
}

/// The model of a variable slot.
pub struct VarV {
    pub name: Seq<char>,
    pub value: Option<LitV>,
}

/// The model of an exec variable.
pub closed spec fn varv(v: Variable) -> VarV {
    VarV {
        name: v.name@,
        value: match v.value {
            Option::Some(l) => Some(litv(l)),
            Option::None => None,
        },
    }
}

/// The models of a sequence of variables, elementwise.
pub open spec fn seq_varv(s: Seq<Variable>) -> Seq<VarV> {
    Seq::new(s.len(), |i: int| varv(s[i]))
}

/// One element of a user-defined word's compiled body: a literal to push,
/// or the name of a word to invoke.
#[derive(Debug)]
pub enum WordElement {
    Literal(Literal),
    Word(String),
}

/// The model of a compiled-body element.
pub enum ElemV {
    Lit(LitV),
    Word(Seq<char>),
}

/// The model of an exec body element.
pub open spec fn elemv(e: WordElement) -> ElemV {
    match e {
        WordElement::Literal(l) => ElemV::Lit(litv(l)),
        WordElement::Word(n) => ElemV::Word(n@),
    }
}

/// The models of a compiled body, elementwise.
pub open spec fn seq_elemv(s: Seq<WordElement>) -> Seq<ElemV> {
    Seq::new(s.len(), |i: int| elemv(s[i]))
}

/// The fixed native primitives, identified by dispatch tag.
#[derive(Debug, Clone, Copy, PartialEq, Eq, Structural)]
pub enum NativeWord {
    Add,
    Sub,
    Mul,
    Div,
    Dup,
    Drop,
    Swap,
    Over,
    Rot,
    PrintTop,
    Emit,
    Cr,
    Equal,
    LessThan,
    GreaterThan,
    Invert,
    And,
    Or,
    Store,
    Fetch,
}

/// The stack left behind by an operation that pops two operands but found
/// fewer than two: the one present operand, if any, is consumed.
pub open spec fn pop2_fail(st: Seq<LitV>) -> Seq<LitV> {
    if st.len() == 0 {
        st
    } else {
        st.drop_last()
    }
}

/// A value is true when it is any literal other than the integer zero.
pub open spec fn truthy(v: LitV) -> bool {
    v != LitV::Integer(0)
}

/// The canonical truth literal: -1 for true, 0 for false.
pub open spec fn truth_lit(b: bool) -> LitV {
    if b {
        LitV::Integer(-1)
    } else {
        LitV::Integer(0)
    }
}

/// Truncating division of two 64-bit cells.
pub open spec fn trunc_div(x: int, d: int) -> int {
    if x == 0 {
        0
    } else if x > 0 && d > 0 {
        x / d
    } else if x < 0 && d < 0 {
        (x * -1) / (d * -1)
    } else if x < 0 {
        ((x * -1) / d) * -1
    } else {
        (x / (d * -1)) * -1
    }
}

/// `i` encodes a Unicode scalar value.
pub open spec fn is_scalar(i: int) -> bool {
    (0 <= i < 0xD800) || (0xE000 <= i <= 0x10FFFF)
}

/// What one native primitive does to the stack and the variable store:
/// the result, the new stack, and the new store.
pub open spec fn native_step(w: NativeWord, st: Seq<LitV>, vars: Seq<VarV>) -> (Result<
    (),
    ForthError,
>, Seq<LitV>, Seq<VarV>) {
    match w {
        NativeWord::Store => store_step(st, vars),
        NativeWord::Fetch => fetch_step(st, vars),
        _ => {
            let (r, st2) = stack_step(w, st);
            (r, st2, vars)
        },
    }
}

/// What a native primitive that touches only the stack does to it.
pub open spec fn stack_step(w: NativeWord, st: Seq<LitV>) -> (Result<(), ForthError>, Seq<LitV>) {
    match w {
        NativeWord::Add => bin_int_step(st, w),
        NativeWord::Sub => bin_int_step(st, w),
        NativeWord::Mul => bin_int_step(st, w),
        NativeWord::Div => bin_int_step(st, w),
        NativeWord::Dup => {
            if st.len() < 1 {
                (Err(ForthError::StackUnderflow), st)
            } else {
                (Ok(()), st.push(st.last()))
            }
        },
        NativeWord::Drop => {
            if st.len() < 1 {
                (Err(ForthError::StackUnderflow), st)
            } else {
                (Ok(()), st.drop_last())
            }
        },
        NativeWord::Swap => {
            if st.len() < 2 {
                (Err(ForthError::StackUnderflow), pop2_fail(st))
            } else {
                (Ok(()), st.drop_last().drop_last().push(st.last()).push(st[st.len() - 2]))
            }
        },
        NativeWord::Over => {
            if st.len() < 2 {
                (Err(ForthError::StackUnderflow), st)
            } else {
                (Ok(()), st.push(st[st.len() - 2]))
            }
        },
        NativeWord::Rot => {
            if st.len() < 3 {
                (Err(ForthError::StackUnderflow), st)
            } else {
                (Ok(()), st.remove(st.len() - 3).push(st[st.len() - 3]))
            }
        },
        NativeWord::PrintTop => {
            if st.len() < 1 {
                (Err(ForthError::StackUnderflow), st)
            } else {
                (Ok(()), st)
            }
        },
        NativeWord::Emit => {
            if st.len() < 1 {
                (Err(ForthError::StackUnderflow), st)
            } else if st.last() matches LitV::Integer(i) && is_scalar(st.last()->Integer_0) {
                (Ok(()), st)
            } else {
                (Err(ForthError::InvalidOperands), st)
            }
        },
        NativeWord::Cr => (Ok(()), st),
        NativeWord::Equal => {
            if st.len() < 2 {
                (Err(ForthError::StackUnderflow), pop2_fail(st))
            } else {
                let a = st[st.len() - 2];
                let b = st.last();
                (Ok(()), st.drop_last().drop_last().push(truth_lit(a == b)))
            }
        },
        NativeWord::LessThan => cmp_op_step(st, false),
        NativeWord::GreaterThan => cmp_op_step(st, true),
        NativeWord::Invert => {
            if st.len() < 1 {
                (Err(ForthError::StackUnderflow), st)
            } else {
                (Ok(()), st.drop_last().push(truth_lit(st.last() == LitV::Integer(0))))
            }
        },
        NativeWord::And => {
            if st.len() < 2 {
                (Err(ForthError::StackUnderflow), pop2_fail(st))
            } else {
                let a = st[st.len() - 2];
                let b = st.last();
                (Ok(()), st.drop_last().drop_last().push(truth_lit(truthy(a) && truthy(b))))
            }
        },
        NativeWord::Or => {
            if st.len() < 2 {
                (Err(ForthError::StackUnderflow), pop2_fail(st))
            } else {
                let a = st[st.len() - 2];
                let b = st.last();
                (Ok(()), st.drop_last().drop_last().push(truth_lit(truthy(a) || truthy(b))))
            }
        },
        _ => (Ok(()), st),
    }
}

/// The arithmetic primitives: two integer operands, a wrapping result for
/// `+ - *`, and for `/` a truncating quotient that must exist and fit the
/// cell. A missing operand is a stack underflow; anything else that goes
/// wrong — a non-integer operand, division by zero, a quotient out of
/// range — consumes the operands and fails with `InvalidOperands`.
pub open spec fn bin_int_step(st: Seq<LitV>, w: NativeWord) -> (Result<(), ForthError>, Seq<LitV>) {
    if st.len() < 2 {
        (Err(ForthError::StackUnderflow), pop2_fail(st))
    } else {
        let a = st[st.len() - 2];
        let b = st.last();
        let base = st.drop_last().drop_last();
        if a matches LitV::Integer(_) && b matches LitV::Integer(_) {
            let x = a->Integer_0;
            let y = b->Integer_0;
            match w {
                NativeWord::Add => (
                    Ok(()),
                    base.push(
                        LitV::Integer(
                            vstd::wrapping::i64_specs::wrapping_add(x as i64, y as i64) as int,
                        ),
                    ),
                ),
                NativeWord::Sub => (
                    Ok(()),
                    base.push(
                        LitV::Integer(
                            vstd::wrapping::i64_specs::wrapping_sub(x as i64, y as i64) as int,
                        ),
                    ),
                ),
                NativeWord::Mul => (
                    Ok(()),
                    base.push(
                        LitV::Integer(
                            vstd::wrapping::i64_specs::wrapping_mul(x as i64, y as i64) as int,
                        ),
                    ),
                ),
                _ => {
                    if y != 0 && i64::MIN <= trunc_div(x, y) <= i64::MAX {
                        (Ok(()), base.push(LitV::Integer(trunc_div(x, y))))
                    } else {
                        (Err(ForthError::InvalidOperands), base)
                    }
                },
            }
        } else {
            (Err(ForthError::InvalidOperands), base)
        }
    }
}

/// The comparison primitives `<` and `>`: operands of matching variants
/// push the canonical truth literal; an incomparable pair consumes the
/// operands and fails with `InvalidOperands`.
pub open spec fn cmp_op_step(st: Seq<LitV>, greater: bool) -> (Result<(), ForthError>, Seq<LitV>) {
    if st.len() < 2 {
        (Err(ForthError::StackUnderflow), pop2_fail(st))
    } else {
        let a = st[st.len() - 2];
        let b = st.last();
        let base = st.drop_last().drop_last();
        match cmp_litv(a, b) {
            CmpRes::Incomparable => (Err(ForthError::InvalidOperands), base),
            CmpRes::Lt => (Ok(()), base.push(truth_lit(!greater))),
            CmpRes::Gt => (Ok(()), base.push(truth_lit(greater))),
            CmpRes::Eq => (Ok(()), base.push(truth_lit(false))),
        }
    }
}

/// `!`: pops a pointer, then the value beneath it, and stores the value
/// into the slot the pointer addresses. A non-pointer on top, or an
/// address of no slot, consumes the operands and fails.
pub open spec fn store_step(st: Seq<LitV>, vars: Seq<VarV>) -> (Result<(), ForthError>, Seq<
    LitV,
>, Seq<VarV>) {
    if st.len() < 2 {
        (Err(ForthError::StackUnderflow), pop2_fail(st), vars)
    } else {
        let value = st[st.len() - 2];
        let ptr = st.last();
        let base = st.drop_last().drop_last();
        if ptr matches LitV::Pointer { address: _, offset: _ } && ptr->Pointer_address < vars.len() {
            let a = ptr->Pointer_address as int;
            (Ok(()), base, vars.update(a, VarV { name: vars[a].name, value: Some(value) }))
        } else {
            (Err(ForthError::InvalidOperands), base, vars)
        }
    }
}

/// `@`: pops a pointer and pushes the addressed slot's value, or the
/// integer zero when the slot is still unset. A non-pointer, or an
/// address of no slot, consumes the operand and fails.
pub open spec fn fetch_step(st: Seq<LitV>, vars: Seq<VarV>) -> (Result<(), ForthError>, Seq<
    LitV,
>, Seq<VarV>) {
    if st.len() < 1 {
        (Err(ForthError::StackUnderflow), st, vars)
    } else {
        let ptr = st.last();
        let base = st.drop_last();
        if ptr matches LitV::Pointer { address: _, offset: _ } && ptr->Pointer_address < vars.len() {
            let a = ptr->Pointer_address as int;
            let v = match vars[a].value {
                Option::Some(v) => v,
                Option::None => LitV::Integer(0),
            };
            (Ok(()), base.push(v), vars)
        } else {
            (Err(ForthError::InvalidOperands), base, vars)
        }
    }
}

/// The interpreter: the operand stack, the variable and constant stores,
/// and the two word dictionaries, exclusively owned by one instance.
pub struct ForthInterpreter {
    stack: Stack<Literal>,
    variables: Vec<Variable>,
    constants: Vec<(String, Literal)>,
    native_words: Vec<(String, NativeWord)>,
    user_words: Vec<(String, Vec<WordElement>)>,
}

impl ForthInterpreter {
    /// The model of the operand stack, bottom first.
    pub closed spec fn stack_model(&self) -> Seq<LitV> {
        seq_litv(self.stack@)
    }

    /// The model of the variable store, in declaration order.
    pub closed spec fn vars_model(&self) -> Seq<VarV> {
        seq_varv(self.variables@)
    }

    /// The model of the constant store, in insertion order.
    pub closed spec fn consts_model(&self) -> Seq<(Seq<char>, LitV)> {
        Seq::new(self.constants@.len(), |i: int| (self.constants@[i].0@, litv(self.constants@[i].1)))
    }

    /// The model of the native dictionary, in table order.
    pub closed spec fn natives_model(&self) -> Seq<(Seq<char>, NativeWord)> {
        Seq::new(self.native_words@.len(), |i: int| (self.native_words@[i].0@, self.native_words@[i].1))
    }

    /// The model of the user-word dictionary, in definition order.
    pub closed spec fn users_model(&self) -> Seq<(Seq<char>, Seq<ElemV>)> {
        Seq::new(
            self.user_words@.len(),
            |i: int| (self.user_words@[i].0@, seq_elemv(self.user_words@[i].1@)),
        )
    }

    /// Neither dictionary nor the constant store changed.
    pub open spec fn same_dicts(&self, other: &Self) -> bool {
        &&& self.consts_model() == other.consts_model()
        &&& self.natives_model() == other.natives_model()
        &&& self.users_model() == other.users_model()
    }

    /// Removes and returns the top of the stack; an empty stack is a
    /// stack underflow, leaving the stack empty.
    pub fn get_unary_operand(&mut self) -> (r: Result<Literal, ForthError>)
        ensures
            old(self).same_dicts(&*final (self)),
            final (self).vars_model() == old(self).vars_model(),
            match r {
                Ok(l) => old(self).stack_model().len() >= 1 && litv(l) == old(
                    self,
                ).stack_model().last() && final (self).stack_model() == old(
                    self,
                ).stack_model().drop_last(),
                Err(e) => e == ForthError::StackUnderflow && old(self).stack_model().len() == 0
                    && final (self).stack_model() == old(self).stack_model(),
            },
    {
        match self.stack.pop() {
            Some(l) => Ok(l),
            None => Err(ForthError::StackUnderflow),
        }
    }

    /// Removes and returns the top two stack values as `(a, b)`, where `b`
    /// was on top (the right-hand operand) and `a` beneath it. With fewer
    /// than two values present, whatever was there is consumed and the
    /// operation is a stack underflow.
    pub fn get_binary_operands(&mut self) -> (r: Result<(Literal, Literal), ForthError>)
        ensures
            old(self).same_dicts(&*final (self)),
            final (self).vars_model() == old(self).vars_model(),
            match r {
                Ok(p) => {
                    let st = old(self).stack_model();
                    &&& st.len() >= 2
                    &&& litv(p.0) == st[st.len() - 2]
                    &&& litv(p.1) == st.last()
                    &&& final (self).stack_model() == st.drop_last().drop_last()
                },
                Err(e) => e == ForthError::StackUnderflow && old(self).stack_model().len() < 2
                    && final (self).stack_model() == pop2_fail(old(self).stack_model()),
            },
    {
        let b = match self.stack.pop() {
            Some(l) => l,
            None => {
                return Err(ForthError::StackUnderflow);
            },
        };
        let a = match self.stack.pop() {
            Some(l) => l,
            None => {
                return Err(ForthError::StackUnderflow);
            },
        };
        Ok((a, b))
    }

    /// Borrows the top of the stack; an empty stack is a stack underflow.
    pub fn get_last_literal(&self) -> (r: Result<&Literal, ForthError>)
        ensures
            match r {
                Ok(l) => self.stack_model().len() >= 1 && litv(*l) == self.stack_model().last(),
                Err(e) => e == ForthError::StackUnderflow && self.stack_model().len() == 0,
            },
    {
        match self.stack.last() {
            Some(l) => Ok(l),
            None => Err(ForthError::StackUnderflow),
        }
    }

    /// Places a value on top of the stack.
    pub fn push(&mut self, value: Literal)
        ensures
            old(self).same_dicts(&*final (self)),
            final (self).vars_model() == old(self).vars_model(),
            final (self).stack_model() == old(self).stack_model().push(litv(value)),
    {
        self.stack.push(value);
    }

    /// The truth of a literal under the canonical encoding: the integer
    /// -1 is true, any other integer is false, and text is always true.
    /// No other variant has a defined truth value.
    pub fn bool(literal: &Literal) -> (r: bool)
        requires
            litv(*literal) matches LitV::Integer(_) || litv(*literal) matches LitV::String(_),
        ensures
            r == (litv(*literal) matches LitV::String(_) || litv(*literal) == LitV::Integer(-1)),
    {
        match literal {
            Literal::Integer(i) => *i == -1i64,
            Literal::String(_) => true,
            _ => false,
        }
    }

    /// Runs one native primitive against the stack and the store,
    /// exactly as [`native_step`] says.
    pub fn run_native(&mut self, w: NativeWord) -> (r: Result<(), ForthError>)
        ensures
            old(self).same_dicts(&*final (self)),
            (r, final (self).stack_model(), final (self).vars_model()) == native_step(
                w,
                old(self).stack_model(),
                old(self).vars_model(),
            ),
    {
        match w {
            NativeWord::Add => self.add(),
            NativeWord::Sub => self.sub(),
            NativeWord::Mul => self.mul(),
            NativeWord::Div => self.div(),
            NativeWord::Dup => self.dup(),
            NativeWord::Drop => self.drop(),
            NativeWord::Swap => self.swap(),
            NativeWord::Over => self.over(),
            NativeWord::Rot => self.rot(),
            NativeWord::PrintTop => self.print_top(),
            NativeWord::Emit => self.emit(),
            NativeWord::Cr => self.cr(),
            NativeWord::Equal => self.equal(),
            NativeWord::LessThan => self.less_than(),
            NativeWord::GreaterThan => self.greater_than(),
            NativeWord::Invert => self.invert(),
            NativeWord::And => self.and(),
            NativeWord::Or => self.or(),
            NativeWord::Store => self.store_variable(),
            NativeWord::Fetch => self.fetch_variable(),
        }
    }

    /// `+`: pops two integers and pushes their wrapping sum.
    pub fn add(&mut self) -> (r: Result<(), ForthError>)
        ensures
            old(self).same_dicts(&*final (self)),
            final (self).vars_model() == old(self).vars_model(),
            (r, final (self).stack_model()) == bin_int_step(old(self).stack_model(), NativeWord::Add),
    {
        let (a, b) = match self.get_binary_operands() {
            Ok(p) => p,
            Err(e) => {
                return Err(e);
            },
        };
        match (a, b) {
            (Literal::Integer(x), Literal::Integer(y)) => {
                self.stack.push(Literal::Integer(x.wrapping_add(y)));
                Ok(())
            },
            _ => Err(ForthError::InvalidOperands),
        }
    }

    /// `-`: pops two integers and pushes their wrapping difference.
    pub fn sub(&mut self) -> (r: Result<(), ForthError>)
        ensures
            old(self).same_dicts(&*final (self)),
            final (self).vars_model() == old(self).vars_model(),
            (r, final (self).stack_model()) == bin_int_step(old(self).stack_model(), NativeWord::Sub),
    {
        let (a, b) = match self.get_binary_operands() {
            Ok(p) => p,
            Err(e) => {
                return Err(e);
            },
        };
        match (a, b) {
            (Literal::Integer(x), Literal::Integer(y)) => {
                self.stack.push(Literal::Integer(x.wrapping_sub(y)));
                Ok(())
            },
            _ => Err(ForthError::InvalidOperands),
        }
    }

    /// `*`: pops two integers and pushes their wrapping product.
    pub fn mul(&mut self) -> (r: Result<(), ForthError>)
        ensures
            old(self).same_dicts(&*final (self)),
            final (self).vars_model() == old(self).vars_model(),
            (r, final (self).stack_model()) == bin_int_step(old(self).stack_model(), NativeWord::Mul),
    {
        let (a, b) = match self.get_binary_operands() {
            Ok(p) => p,
            Err(e) => {
                return Err(e);
            },
        };
        match (a, b) {
            (Literal::Integer(x), Literal::Integer(y)) => {
                self.stack.push(Literal::Integer(x.wrapping_mul(y)));
                Ok(())
            },
            _ => Err(ForthError::InvalidOperands),
        }
    }

    /// `/`: pops two integers and pushes their truncating quotient;
    /// division by zero, or a quotient that does not fit the cell, fails
    /// with `InvalidOperands`.
    pub fn div(&mut self) -> (r: Result<(), ForthError>)
        ensures
            old(self).same_dicts(&*final (self)),
            final (self).vars_model() == old(self).vars_model(),
            (r, final (self).stack_model()) == bin_int_step(old(self).stack_model(), NativeWord::Div),
    {
        let (a, b) = match self.get_binary_operands() {
            Ok(p) => p,
            Err(e) => {
                return Err(e);
            },
        };
        match (a, b) {
            (Literal::Integer(x), Literal::Integer(y)) => {
                match x.checked_div(y) {
                    Some(q) => {
                        self.stack.push(Literal::Integer(q));
                        Ok(())
                    },
                    None => Err(ForthError::InvalidOperands),
                }
            },
            _ => Err(ForthError::InvalidOperands),
        }
    }

    /// `dup`: pushes a copy of the top of the stack.
    pub fn dup(&mut self) -> (r: Result<(), ForthError>)
        ensures
            old(self).same_dicts(&*final (self)),
            final (self).vars_model() == old(self).vars_model(),
            (r, final (self).stack_model()) == stack_step(NativeWord::Dup, old(self).stack_model()),
    {
        let c = match self.stack.last() {
            Some(l) => clone_literal(l),
            None => {
                return Err(ForthError::StackUnderflow);
            },
        };
        self.stack.push(c);
        Ok(())
    }

    /// `drop`: discards the top of the stack.
    pub fn drop(&mut self) -> (r: Result<(), ForthError>)
        ensures
            old(self).same_dicts(&*final (self)),
            final (self).vars_model() == old(self).vars_model(),
            (r, final (self).stack_model()) == stack_step(NativeWord::Drop, old(self).stack_model()),
    {
        match self.stack.pop() {
            Some(_) => Ok(()),
            None => Err(ForthError::StackUnderflow),
        }
    }

    /// `swap`: exchanges the top two stack values.
    pub fn swap(&mut self) -> (r: Result<(), ForthError>)
        ensures
            old(self).same_dicts(&*final (self)),
            final (self).vars_model() == old(self).vars_model(),
            (r, final (self).stack_model()) == stack_step(NativeWord::Swap, old(self).stack_model()),
    {
        let (a, b) = match self.get_binary_operands() {
            Ok(p) => p,
            Err(e) => {
                return Err(e);
            },
        };
        self.stack.push(b);
        self.stack.push(a);
        Ok(())
    }

    /// `over`: pushes a copy of the second-from-top stack value.
    pub fn over(&mut self) -> (r: Result<(), ForthError>)
        ensures
            old(self).same_dicts(&*final (self)),
            final (self).vars_model() == old(self).vars_model(),
            (r, final (self).stack_model()) == stack_step(NativeWord::Over, old(self).stack_model()),
    {
        let length = self.stack.length();
        if length >= 2 {
            let c = clone_literal(self.stack.get(length - 2));
            self.stack.push(c);
            Ok(())
        } else {
            Err(ForthError::StackUnderflow)
        }
    }

    /// `rot`: moves the third-from-top stack value to the top, keeping
    /// the relative order of the other two.
    pub fn rot(&mut self) -> (r: Result<(), ForthError>)
        ensures
            old(self).same_dicts(&*final (self)),
            final (self).vars_model() == old(self).vars_model(),
            (r, final (self).stack_model()) == stack_step(NativeWord::Rot, old(self).stack_model()),
    {
        let length = self.stack.length();
        if length >= 3 {
            let element = self.stack.remove(length - 3);
            self.stack.push(element);
            Ok(())
        } else {
            Err(ForthError::StackUnderflow)
        }
    }

    /// `=`: pops two values of any variants and pushes the canonical
    /// truth literal of their (heterogeneous-safe) equality.
    pub fn equal(&mut self) -> (r: Result<(), ForthError>)
        ensures
            old(self).same_dicts(&*final (self)),
            final (self).vars_model() == old(self).vars_model(),
            (r, final (self).stack_model()) == stack_step(NativeWord::Equal, old(self).stack_model()),
    {
        let (a, b) = match self.get_binary_operands() {
            Ok(p) => p,
            Err(e) => {
                return Err(e);
            },
        };
        let eq = literal_eq(&a, &b);
        self.stack.push(Literal::Integer(if eq { -1 } else { 0 }));
        Ok(())
    }

    /// `<`: pops two values and pushes the canonical truth literal of
    /// "left is less"; an incomparable pair fails with `InvalidOperands`.
    pub fn less_than(&mut self) -> (r: Result<(), ForthError>)
        ensures
            old(self).same_dicts(&*final (self)),
            final (self).vars_model() == old(self).vars_model(),
            (r, final (self).stack_model()) == stack_step(
                NativeWord::LessThan,
                old(self).stack_model(),
            ),
    {
        let (a, b) = match self.get_binary_operands() {
            Ok(p) => p,
            Err(e) => {
                return Err(e);
            },
        };
        match cmp_literal(&a, &b) {
            CmpRes::Incomparable => Err(ForthError::InvalidOperands),
            CmpRes::Lt => {
                self.stack.push(Literal::Integer(-1));
                Ok(())
            },
            _ => {
                self.stack.push(Literal::Integer(0));
                Ok(())
            },
        }
    }

    /// `>`: pops two values and pushes the canonical truth literal of
    /// "left is greater"; an incomparable pair fails with `InvalidOperands`.
    pub fn greater_than(&mut self) -> (r: Result<(), ForthError>)
        ensures
            old(self).same_dicts(&*final (self)),
            final (self).vars_model() == old(self).vars_model(),
            (r, final (self).stack_model()) == stack_step(
                NativeWord::GreaterThan,
                old(self).stack_model(),
            ),
    {
        let (a, b) = match self.get_binary_operands() {
            Ok(p) => p,
            Err(e) => {
                return Err(e);
            },
        };
        match cmp_literal(&a, &b) {
            CmpRes::Incomparable => Err(ForthError::InvalidOperands),
            CmpRes::Gt => {
                self.stack.push(Literal::Integer(-1));
                Ok(())
            },
            _ => {
                self.stack.push(Literal::Integer(0));
                Ok(())
            },
        }
    }

    /// `invert`: pops a value and pushes -1 when it was the canonical
    /// false literal (the integer zero), else 0.
    pub fn invert(&mut self) -> (r: Result<(), ForthError>)
        ensures
            old(self).same_dicts(&*final (self)),
            final (self).vars_model() == old(self).vars_model(),
            (r, final (self).stack_model()) == stack_step(NativeWord::Invert, old(self).stack_model()),
    {
        let a = match self.stack.pop() {
            Some(l) => l,
            None => {
                return Err(ForthError::StackUnderflow);
            },
        };
        let is_zero = literal_eq(&a, &Literal::Integer(0));
        self.stack.push(Literal::Integer(if is_zero { -1 } else { 0 }));
        Ok(())
    }

    /// `and`: pops two values and pushes the canonical truth literal of
    /// both being non-zero (any non-integer counts as true).
    pub fn and(&mut self) -> (r: Result<(), ForthError>)
        ensures
            old(self).same_dicts(&*final (self)),
            final (self).vars_model() == old(self).vars_model(),
            (r, final (self).stack_model()) == stack_step(NativeWord::And, old(self).stack_model()),
    {
        let (a, b) = match self.get_binary_operands() {
            Ok(p) => p,
            Err(e) => {
                return Err(e);
            },
        };
        let ta = !literal_eq(&a, &Literal::Integer(0));
        let tb = !literal_eq(&b, &Literal::Integer(0));
        self.stack.push(Literal::Integer(if ta && tb { -1 } else { 0 }));
        Ok(())
    }

    /// `or`: pops two values and pushes the canonical truth literal of
    /// either being non-zero (any non-integer counts as true).
    pub fn or(&mut self) -> (r: Result<(), ForthError>)
        ensures
            old(self).same_dicts(&*final (self)),
            final (self).vars_model() == old(self).vars_model(),
            (r, final (self).stack_model()) == stack_step(NativeWord::Or, old(self).stack_model()),
    {
        let (a, b) = match self.get_binary_operands() {
            Ok(p) => p,
            Err(e) => {
                return Err(e);
            },
        };
        let ta = !literal_eq(&a, &Literal::Integer(0));
        let tb = !literal_eq(&b, &Literal::Integer(0));
        self.stack.push(Literal::Integer(if ta || tb { -1 } else { 0 }));
        Ok(())
    }

    /// `!`: pops a pointer and a value and stores the value in the
    /// addressed slot; see [`store_step`].
    pub fn store_variable(&mut self) -> (r: Result<(), ForthError>)
        ensures
            old(self).same_dicts(&*final (self)),
            (r, final (self).stack_model(), final (self).vars_model()) == store_step(
                old(self).stack_model(),
                old(self).vars_model(),
            ),
    {
        let (var_value, var_index) = match self.get_binary_operands() {
            Ok(p) => p,
            Err(e) => {
                return Err(e);
            },
        };
        match var_index {
            Literal::Pointer(p) => {
                if p.address < self.variables.len() {
                    let name = clone_string(&self.variables[p.address].name);
                    self.variables[p.address] = Variable { name, value: Some(var_value) };
                    Ok(())
                } else {
                    Err(ForthError::InvalidOperands)
                }
            },
            _ => Err(ForthError::InvalidOperands),
        }
    }

    /// `@`: pops a pointer and pushes the addressed slot's value, or the
    /// integer zero when the slot is unset; see [`fetch_step`].
    pub fn fetch_variable(&mut self) -> (r: Result<(), ForthError>)
        ensures
            old(self).same_dicts(&*final (self)),
            (r, final (self).stack_model(), final (self).vars_model()) == fetch_step(
                old(self).stack_model(),
                old(self).vars_model(),
            ),
    {
        let var_index = match self.get_unary_operand() {
            Ok(l) => l,
            Err(e) => {
                return Err(e);
            },
        };
        match var_index {
            Literal::Pointer(p) => {
                if p.address < self.variables.len() {
                    let v = match &self.variables[p.address].value {
                        Some(l) => clone_literal(l),
                        None => Literal::Integer(0),
                    };
                    self.stack.push(v);
                    Ok(())
                } else {
                    Err(ForthError::InvalidOperands)
                }
            },
            _ => Err(ForthError::InvalidOperands),
        }
    }

    /// `.`: prints the display form of the top of the stack, without
    /// popping it and without a trailing newline.
    pub fn print_top(&mut self) -> (r: Result<(), ForthError>)
        ensures
            old(self).same_dicts(&*final (self)),
            final (self).vars_model() == old(self).vars_model(),
            (r, final (self).stack_model()) == stack_step(
                NativeWord::PrintTop,
                old(self).stack_model(),
            ),
    {
        let text = match self.stack.last() {
            Some(l) => display_literal(l),
            None => {
                return Err(ForthError::StackUnderflow);
            },
        };
        write_stdout(text.as_str());
        Ok(())
    }

    /// `emit`: prints the Unicode scalar value encoded by the integer on
    /// top of the stack, without popping it; a non-integer, or an integer
    /// that is no scalar value, fails with `InvalidOperands`.
    pub fn emit(&mut self) -> (r: Result<(), ForthError>)
        ensures
            old(self).same_dicts(&*final (self)),
            final (self).vars_model() == old(self).vars_model(),
            (r, final (self).stack_model()) == stack_step(NativeWord::Emit, old(self).stack_model()),
    {
        let last = match self.stack.last() {
            Some(l) => l,
            None => {
                return Err(ForthError::StackUnderflow);
            },
        };
        match last {
            Literal::Integer(i) => {
                let i = *i;
                if (0 <= i && i < 0xD800) || (0xE000 <= i && i <= 0x10FFFF) {
                    write_scalar(i as u32);
                    Ok(())
                } else {
                    Err(ForthError::InvalidOperands)
                }
            },
            _ => Err(ForthError::InvalidOperands),
        }
    }

    /// `cr`: prints a newline.
    pub fn cr(&mut self) -> (r: Result<(), ForthError>)
        ensures
            old(self).same_dicts(&*final (self)),
            final (self).vars_model() == old(self).vars_model(),
            (r, final (self).stack_model()) == stack_step(NativeWord::Cr, old(self).stack_model()),
    {
        write_stdout("\n");
        Ok(())
    }
}

/// The fixed contents of the native dictionary.
pub open spec fn native_table() -> Seq<(Seq<char>, NativeWord)> {
    seq![
        ("+"@, NativeWord::Add),
        ("-"@, NativeWord::Sub),
        ("*"@, NativeWord::Mul),
        ("/"@, NativeWord::Div),
        ("dup"@, NativeWord::Dup),
        ("drop"@, NativeWord::Drop),
        ("swap"@, NativeWord::Swap),
        ("over"@, NativeWord::Over),
        ("rot"@, NativeWord::Rot),
        ("."@, NativeWord::PrintTop),
        ("emit"@, NativeWord::Emit),
        ("cr"@, NativeWord::Cr),
        ("="@, NativeWord::Equal),
        ("<"@, NativeWord::LessThan),
        (">"@, NativeWord::GreaterThan),
        ("invert"@, NativeWord::Invert),
        ("and"@, NativeWord::And),
        ("or"@, NativeWord::Or),
        ("!"@, NativeWord::Store),
        ("@"@, NativeWord::Fetch),
    ]
}

/// The value of the first constant named `n`, if any.
pub open spec fn find_const(cs: Seq<(Seq<char>, LitV)>, n: Seq<char>) -> Option<LitV>
    decreases cs.len(),
{
    if cs.len() == 0 {
        None
    } else if cs[0].0 == n {
        Some(cs[0].1)
    } else {
        find_const(cs.drop_first(), n)
    }
}

/// The position of the first variable named `n`, or -1 when there is none.
pub open spec fn var_index(vs: Seq<VarV>, n: Seq<char>) -> int
    decreases vs.len(),
{
    if vs.len() == 0 {
        -1
    } else if vs[0].name == n {
        0
    } else {
        let r = var_index(vs.drop_first(), n);
        if r < 0 {
            -1
        } else {
            r + 1
        }
    }
}

/// The native primitive named `n`, if any.
pub open spec fn find_native(ns: Seq<(Seq<char>, NativeWord)>, n: Seq<char>) -> Option<NativeWord>
    decreases ns.len(),
{
    if ns.len() == 0 {
        None
    } else if ns[0].0 == n {
        Some(ns[0].1)
    } else {
        find_native(ns.drop_first(), n)
    }
}

/// The position of the first user word named `n`, or -1 when there is none.
pub open spec fn user_index(us: Seq<(Seq<char>, Seq<ElemV>)>, n: Seq<char>) -> int
    decreases us.len(),
{
    if us.len() == 0 {
        -1
    } else if us[0].0 == n {
        0
    } else {
        let r = user_index(us.drop_first(), n);
        if r < 0 {
            -1
        } else {
            r + 1
        }
    }
}

/// The position of the first constant named `n`, or -1 when there is none.
pub open spec fn const_index(cs: Seq<(Seq<char>, LitV)>, n: Seq<char>) -> int
    decreases cs.len(),
{
    if cs.len() == 0 {
        -1
    } else if cs[0].0 == n {
        0
    } else {
        let r = const_index(cs.drop_first(), n);
        if r < 0 {
            -1
        } else {
            r + 1
        }
    }
}

/// A resolved element of a line: push a literal, invoke a native
/// primitive, or invoke the user word at a dictionary position.
#[derive(Debug)]
pub enum Op {
    Push(Literal),
    Native(NativeWord),
    User(usize),
}

/// The model of a resolved element.
pub enum OpV {
    Push(LitV),
    Native(NativeWord),
    User(int),
}

/// The model of an exec resolved element.
pub open spec fn opv(o: Op) -> OpV {
    match o {
        Op::Push(l) => OpV::Push(litv(l)),
        Op::Native(w) => OpV::Native(w),
        Op::User(i) => OpV::User(i as int),
    }
}

/// The models of a sequence of resolved elements, elementwise.
pub open spec fn seq_opv(ops: Seq<Op>) -> Seq<OpV> {
    Seq::new(ops.len(), |i: int| opv(ops[i]))
}

/// Resolves a token sequence against the store and the dictionaries.
///
/// Each token becomes exactly one of: a literal push (integer and text
/// tokens, constant names, and variable names, which resolve to pointer
/// literals carrying the slot index); a native invocation; or a user-word
/// invocation. The declaration form `variable <name>` takes effect here,
/// at resolution time, and contributes no element. Precedence of a name:
/// constants, then variables, then natives, then user words — so a user
/// word can never shadow a native primitive. An unresolvable name is an
/// undefined-word failure; a `variable` with no name after it is a syntax
/// error. On success the result carries the resolved elements and the
/// variable store with the new declarations appended.
pub open spec fn resolve_spec(
    toks: Seq<TokV>,
    vars: Seq<VarV>,
    consts: Seq<(Seq<char>, LitV)>,
    natives: Seq<(Seq<char>, NativeWord)>,
    users: Seq<(Seq<char>, Seq<ElemV>)>,
) -> Result<(Seq<OpV>, Seq<VarV>), ForthError>
    decreases toks.len(),
{
    if toks.len() == 0 {
        Ok((Seq::empty(), vars))
    } else {
        match toks[0] {
            TokV::Integer(i) => resolve_cons(
                OpV::Push(LitV::Integer(i as int)),
                resolve_spec(toks.drop_first(), vars, consts, natives, users),
            ),
            TokV::Text(s) => resolve_cons(
                OpV::Push(LitV::String(s)),
                resolve_spec(toks.drop_first(), vars, consts, natives, users),
            ),
            TokV::Name(n) => {
                if n == "variable"@ {
                    if toks.len() >= 2 && toks[1] matches TokV::Name(_) {
                        resolve_spec(
                            toks.skip(2),
                            vars.push(VarV { name: toks[1]->Name_0, value: None }),
                            consts,
                            natives,
                            users,
                        )
                    } else {
                        Err(ForthError::SyntaxError)
                    }
                } else if find_const(consts, n) is Some {
                    resolve_cons(
                        OpV::Push(find_const(consts, n)->Some_0),
                        resolve_spec(toks.drop_first(), vars, consts, natives, users),
                    )
                } else if var_index(vars, n) >= 0 {
                    resolve_cons(
                        OpV::Push(
                            LitV::Pointer { address: var_index(vars, n) as nat, offset: 0 },
                        ),
                        resolve_spec(toks.drop_first(), vars, consts, natives, users),
                    )
                } else if find_native(natives, n) is Some {
                    resolve_cons(
                        OpV::Native(find_native(natives, n)->Some_0),
                        resolve_spec(toks.drop_first(), vars, consts, natives, users),
                    )
                } else if user_index(users, n) >= 0 {
                    resolve_cons(
                        OpV::User(user_index(users, n)),
                        resolve_spec(toks.drop_first(), vars, consts, natives, users),
                    )
                } else {
                    Err(ForthError::UndefinedWord)
                }
            },
        }
    }
}

/// Prepends a resolved element to the rest of a resolution.
pub open spec fn resolve_cons(
    op: OpV,
    rest: Result<(Seq<OpV>, Seq<VarV>), ForthError>,
) -> Result<(Seq<OpV>, Seq<VarV>), ForthError> {
    match rest {
        Ok((ops, vars)) => Ok((seq![op] + ops, vars)),
        Err(e) => Err(e),
    }
}

/// No resolved element invokes a user word.
pub open spec fn all_simple(ops: Seq<OpV>) -> bool {
    forall|i: int| 0 <= i < ops.len() ==> !(#[trigger] ops[i] matches OpV::User(_))
}

/// Runs a sequence of resolved elements that hold no user-word calls:
/// pushes push, natives step per [`native_step`], and the first failure
/// stops the run with the stack and store it left behind.
pub open spec fn run_simple(ops: Seq<OpV>, st: Seq<LitV>, vars: Seq<VarV>) -> (Result<
    (),
    ForthError,
>, Seq<LitV>, Seq<VarV>)
    decreases ops.len(),
{
    if ops.len() == 0 {
        (Ok(()), st, vars)
    } else {
        match ops[0] {
            OpV::Push(v) => run_simple(ops.drop_first(), st.push(v), vars),
            OpV::Native(w) => {
                let (r, st2, vars2) = native_step(w, st, vars);
                match r {
                    Result::Err(e) => (Err(e), st2, vars2),
                    Result::Ok(_) => run_simple(ops.drop_first(), st2, vars2),
                }
            },
            OpV::User(_) => (Ok(()), st, vars),
        }
    }
}

/// The call-depth guard for user-defined words, standing in for the host
/// call-stack limit.
pub const MAX_CALL_DEPTH: u64 = 1000;

impl ForthInterpreter {
    /// A fresh interpreter: empty stack and stores, the fixed native
    /// dictionary, and no user words.
    pub fn new() -> (s: Self)
        ensures
            s.stack_model() == Seq::<LitV>::empty(),
            s.vars_model() == Seq::<VarV>::empty(),
            s.consts_model() == Seq::<(Seq<char>, LitV)>::empty(),
            s.users_model() == Seq::<(Seq<char>, Seq<ElemV>)>::empty(),
            s.natives_model() == native_table(),
    {
        let mut nw: Vec<(String, NativeWord)> = Vec::new();
        nw.push(("+".to_owned(), NativeWord::Add));
        nw.push(("-".to_owned(), NativeWord::Sub));
        nw.push(("*".to_owned(), NativeWord::Mul));
        nw.push(("/".to_owned(), NativeWord::Div));
        nw.push(("dup".to_owned(), NativeWord::Dup));
        nw.push(("drop".to_owned(), NativeWord::Drop));
        nw.push(("swap".to_owned(), NativeWord::Swap));
        nw.push(("over".to_owned(), NativeWord::Over));
        nw.push(("rot".to_owned(), NativeWord::Rot));
        nw.push((".".to_owned(), NativeWord::PrintTop));
        nw.push(("emit".to_owned(), NativeWord::Emit));
        nw.push(("cr".to_owned(), NativeWord::Cr));
        nw.push(("=".to_owned(), NativeWord::Equal));
        nw.push(("<".to_owned(), NativeWord::LessThan));
        nw.push((">".to_owned(), NativeWord::GreaterThan));
        nw.push(("invert".to_owned(), NativeWord::Invert));
        nw.push(("and".to_owned(), NativeWord::And));
        nw.push(("or".to_owned(), NativeWord::Or));
        nw.push(("!".to_owned(), NativeWord::Store));
        nw.push(("@".to_owned(), NativeWord::Fetch));
        let s = ForthInterpreter {
            stack: Stack::new(),
            variables: Vec::new(),
            constants: Vec::new(),
            native_words: nw,
            user_words: Vec::new(),
        };
        proof {
            assert(s.stack_model() =~= Seq::<LitV>::empty());
            assert(s.vars_model() =~= Seq::<VarV>::empty());
            assert(s.consts_model() =~= Seq::<(Seq<char>, LitV)>::empty());
            assert(s.users_model() =~= Seq::<(Seq<char>, Seq<ElemV>)>::empty());
            assert(s.natives_model() =~= native_table());
        }
        s
    }

    /// A read-only view of the operand stack.
    pub fn get_stack_dump(&self) -> (r: &Stack<Literal>)
        ensures
            seq_litv(r@) == self.stack_model(),
    {
        &self.stack
    }

    /// A read-only view of the variable store.
    pub fn get_vars_dump(&self) -> (r: &Vec<Variable>)
        ensures
            seq_varv(r@) == self.vars_model(),
    {
        &self.variables
    }

    /// A read-only view of the constant store.
    pub fn get_consts_dump(&self) -> (r: &Vec<(String, Literal)>)
        ensures
            Seq::new(r@.len(), |i: int| (r@[i].0@, litv(r@[i].1))) == self.consts_model(),
    {
        &self.constants
    }

    /// A read-only view of the native dictionary.
    pub fn get_native_words_dump(&self) -> (r: &Vec<(String, NativeWord)>)
        ensures
            Seq::new(r@.len(), |i: int| (r@[i].0@, r@[i].1)) == self.natives_model(),
    {
        &self.native_words
    }

    /// A read-only view of the user-word dictionary.
    pub fn get_user_words_dump(&self) -> (r: &Vec<(String, Vec<WordElement>)>)
        ensures
            Seq::new(r@.len(), |i: int| (r@[i].0@, seq_elemv(r@[i].1@))) == self.users_model(),
    {
        &self.user_words
    }

    /// `variable` (stack form): pops a value and declares a new, unset
    /// variable named by its display form. The new slot's pointer address
    /// is its position at declaration time and never changes.
    pub fn variable(&mut self) -> (r: Result<(), ForthError>)
        ensures
            old(self).same_dicts(&*final (self)),
            match r {
                Ok(()) => {
                    let st = old(self).stack_model();
                    &&& st.len() >= 1
                    &&& final (self).stack_model() == st.drop_last()
                    &&& final (self).vars_model() == old(self).vars_model().push(
                        VarV { name: lit_display(st.last()), value: None },
                    )
                },
                Err(e) => e == ForthError::StackUnderflow && old(self).stack_model().len() == 0
                    && final (self).stack_model() == old(self).stack_model()
                    && final (self).vars_model() == old(self).vars_model(),
            },
    {
        let var_name = match self.stack.pop() {
            Some(l) => l,
            None => {
                return Err(ForthError::StackUnderflow);
            },
        };
        let name = display_literal(&var_name);
        self.variables.push(Variable { name, value: None });
        Ok(())
    }

    /// Declares a new, unset variable with the given name, appending it
    /// to the store.
    pub fn declare_variable(&mut self, name: String)
        ensures
            old(self).same_dicts(&*final (self)),
            final (self).stack_model() == old(self).stack_model(),
            final (self).vars_model() == old(self).vars_model().push(
                VarV { name: name@, value: None },
            ),
    {
        self.variables.push(Variable { name, value: None });
    }

    /// Sets the first variable with the given name to the value, or
    /// appends a new variable already carrying it when none exists.
    pub fn set_variable(&mut self, name: String, value: Literal) -> (r: Result<(), ForthError>)
        ensures
            old(self).same_dicts(&*final (self)),
            final (self).stack_model() == old(self).stack_model(),
            r is Ok,
            ({
                let vs = old(self).vars_model();
                let i = var_index(vs, name@);
                if i < 0 {
                    final (self).vars_model() == vs.push(
                        VarV { name: name@, value: Some(litv(value)) },
                    )
                } else {
                    final (self).vars_model() == vs.update(
                        i,
                        VarV { name: name@, value: Some(litv(value)) },
                    )
                }
            }),
    {
        let idx = self.get_variable_id(&name);
        match idx {
            Some(i) => {
                self.variables[i] = Variable { name, value: Some(value) };
                Ok(())
            },
            None => {
                self.variables.push(Variable { name, value: Some(value) });
                Ok(())
            },
        }
    }

    /// Whether some variable has the given name.
    pub fn contains_variable(&self, name: &String) -> (r: bool)
        ensures
            r == (var_index(self.vars_model(), name@) >= 0),
    {
        self.get_variable_id(name).is_some()
    }

    /// The position of the first variable with the given name, which is
    /// also the address a pointer literal to it carries.
    pub fn get_variable_id(&self, name: &String) -> (r: Option<usize>)
        ensures
            match r {
                Some(i) => var_index(self.vars_model(), name@) == i && i < self.vars_model().len(),
                None => var_index(self.vars_model(), name@) == -1,
            },
    {
        let ghost vs = self.vars_model();
        let n = self.variables.len();
        let mut i: usize = 0;
        proof {
            assert(vs.skip(0) =~= vs);
        }
        while i < n
            invariant
                vs == self.vars_model(),
                n == vs.len(),
                i <= n,
                var_index(vs, name@) == if var_index(vs.skip(i as int), name@) < 0 {
                    -1int
                } else {
                    var_index(vs.skip(i as int), name@) + i
                },
            decreases n - i,
        {
            proof {
                assert(vs.skip(i as int).len() == n - i);
                assert(vs.skip(i as int)[0] == vs[i as int]);
                assert(vs.skip(i as int).drop_first() =~= vs.skip(i as int + 1));
            }
            if self.variables[i].name.eq(name) {
                return Some(i);
            }
            i = i + 1;
        }
        proof {
            assert(vs.skip(n as int).len() == 0);
        }
        None
    }

    /// Sets the first constant with the given name to the value, or
    /// appends a new constant when none exists.
    pub fn set_constant(&mut self, name: String, value: Literal)
        ensures
            final (self).stack_model() == old(self).stack_model(),
            final (self).vars_model() == old(self).vars_model(),
            final (self).natives_model() == old(self).natives_model(),
            final (self).users_model() == old(self).users_model(),
            ({
                let cs = old(self).consts_model();
                let i = const_index(cs, name@);
                if i < 0 {
                    final (self).consts_model() == cs.push((name@, litv(value)))
                } else {
                    final (self).consts_model() == cs.update(i, (name@, litv(value)))
                }
            }),
    {
        let idx = self.lookup_const_id(&name);
        match idx {
            Some(i) => {
                self.constants[i] = (name, value);
                proof {
                    assert(final (self).consts_model() =~= old(self).consts_model().update(
                        i as int,
                        (name@, litv(value)),
                    ));
                }
            },
            None => {
                self.constants.push((name, value));
                proof {
                    assert(final (self).consts_model() =~= old(self).consts_model().push(
                        (name@, litv(value)),
                    ));
                }
            },
        }
    }

    /// The position of the first constant with the given name, if any.
    fn lookup_const_id(&self, name: &String) -> (r: Option<usize>)
        ensures
            match r {
                Some(i) => const_index(self.consts_model(), name@) == i && i < self.consts_model().len(),
                None => const_index(self.consts_model(), name@) == -1,
            },
    {
        let ghost cs = self.consts_model();
        let n = self.constants.len();
        let mut i: usize = 0;
        proof {
            assert(cs.skip(0) =~= cs);
        }
        while i < n
            invariant
                cs == self.consts_model(),
                n == cs.len(),
                i <= n,
                const_index(cs, name@) == if const_index(cs.skip(i as int), name@) < 0 {
                    -1int
                } else {
                    const_index(cs.skip(i as int), name@) + i
                },
            decreases n - i,
        {
            proof {
                assert(cs.skip(i as int).len() == n - i);
                assert(cs.skip(i as int)[0] == cs[i as int]);
                assert(cs.skip(i as int).drop_first() =~= cs.skip(i as int + 1));
            }
            if self.constants[i].0.eq(name) {
                return Some(i);
            }
            i = i + 1;
        }
        proof {
            assert(cs.skip(n as int).len() == 0);
        }
        None
    }

    /// Installs a user-defined word: replaces the body of the first word
    /// with the given name, or appends a new entry when none exists. The
    /// body is the word's compiled representation; it is traversed, never
    /// re-parsed, at call time.
    pub fn define_word(&mut self, name: String, body: Vec<WordElement>)
        ensures
            final (self).stack_model() == old(self).stack_model(),
            final (self).vars_model() == old(self).vars_model(),
            final (self).natives_model() == old(self).natives_model(),
            final (self).consts_model() == old(self).consts_model(),
            ({
                let us = old(self).users_model();
                let i = user_index(us, name@);
                if i < 0 {
                    final (self).users_model() == us.push((name@, seq_elemv(body@)))
                } else {
                    final (self).users_model() == us.update(i, (name@, seq_elemv(body@)))
                }
            }),
    {
        let idx = self.lookup_user(&name);
        match idx {
            Some(i) => {
                self.user_words[i] = (name, body);
                proof {
                    assert(final (self).users_model() =~= old(self).users_model().update(
                        i as int,
                        (name@, seq_elemv(body@)),
                    ));
                }
            },
            None => {
                self.user_words.push((name, body));
                proof {
                    assert(final (self).users_model() =~= old(self).users_model().push(
                        (name@, seq_elemv(body@)),
                    ));
                }
            },
        }
    }

    /// The value of the first constant with the given name, if any.
    fn lookup_const(&self, name: &String) -> (r: Option<Literal>)
        ensures
            match r {
                Some(l) => find_const(self.consts_model(), name@) == Some(litv(l)),
                None => find_const(self.consts_model(), name@) is None,
            },
    {
        let ghost cs = self.consts_model();
        let n = self.constants.len();
        let mut i: usize = 0;
        proof {
            assert(cs.skip(0) =~= cs);
        }
        while i < n
            invariant
                cs == self.consts_model(),
                n == cs.len(),
                i <= n,
                find_const(cs, name@) == find_const(cs.skip(i as int), name@),
            decreases n - i,
        {
            proof {
                assert(cs.skip(i as int).len() == n - i);
                assert(cs.skip(i as int)[0] == cs[i as int]);
                assert(cs.skip(i as int).drop_first() =~= cs.skip(i as int + 1));
            }
            if self.constants[i].0.eq(name) {
                return Some(clone_literal(&self.constants[i].1));
            }
            i = i + 1;
        }
        proof {
            assert(cs.skip(n as int).len() == 0);
        }
        None
    }

    /// The native primitive with the given name, if any.
    fn lookup_native(&self, name: &String) -> (r: Option<NativeWord>)
        ensures
            r == find_native(self.natives_model(), name@),
    {
        let ghost ns = self.natives_model();
        let n = self.native_words.len();
        let mut i: usize = 0;
        proof {
            assert(ns.skip(0) =~= ns);
        }
        while i < n
            invariant
                ns == self.natives_model(),
                n == ns.len(),
                i <= n,
                find_native(ns, name@) == find_native(ns.skip(i as int), name@),
            decreases n - i,
        {
            proof {
                assert(ns.skip(i as int).len() == n - i);
                assert(ns.skip(i as int)[0] == ns[i as int]);
                assert(ns.skip(i as int).drop_first() =~= ns.skip(i as int + 1));
            }
            if self.native_words[i].0.eq(name) {
                return Some(self.native_words[i].1);
            }
            i = i + 1;
        }
        proof {
            assert(ns.skip(n as int).len() == 0);
        }
        None
    }

    /// The dictionary position of the first user word with the given
    /// name, if any.
    fn lookup_user(&self, name: &String) -> (r: Option<usize>)
        ensures
            match r {
                Some(i) => user_index(self.users_model(), name@) == i && i
                    < self.users_model().len(),
                None => user_index(self.users_model(), name@) == -1,
            },
    {
        let ghost us = self.users_model();
        let n = self.user_words.len();
        let mut i: usize = 0;
        proof {
            assert(us.skip(0) =~= us);
        }
        while i < n
            invariant
                us == self.users_model(),
                n == us.len(),
                i <= n,
                user_index(us, name@) == if user_index(us.skip(i as int), name@) < 0 {
                    -1int
                } else {
                    user_index(us.skip(i as int), name@) + i
                },
            decreases n - i,
        {
            proof {
                assert(us.skip(i as int).len() == n - i);
                assert(us.skip(i as int)[0] == us[i as int]);
                assert(us.skip(i as int).drop_first() =~= us.skip(i as int + 1));
            }
            if self.user_words[i].0.eq(name) {
                return Some(i);
            }
            i = i + 1;
        }
        proof {
            assert(us.skip(n as int).len() == 0);
        }
        None
    }
}

impl ForthInterpreter {
    /// Resolves the tokens from position `i` on, as [`resolve_spec`] says,
    /// appending the variables that `variable` declarations introduce. The
    /// stack, the constant store, and both dictionaries are untouched; on
    /// failure nothing but those declarations has happened.
    fn resolve_from(&mut self, toks: &Vec<Token>, i: usize) -> (r: Result<Vec<Op>, ForthError>)
        requires
            i <= toks@.len(),
        ensures
            old(self).same_dicts(&*final (self)),
            final (self).stack_model() == old(self).stack_model(),
            ({
                let rs = resolve_spec(
                    seq_tokv(toks@.skip(i as int)),
                    old(self).vars_model(),
                    old(self).consts_model(),
                    old(self).natives_model(),
                    old(self).users_model(),
                );
                match r {
                    Ok(ops) => rs == Ok::<_, ForthError>(
                        (seq_opv(ops@), final (self).vars_model()),
                    ),
                    Err(e) => rs == Err::<(Seq<OpV>, Seq<VarV>), _>(e),
                }
            }),
        decreases toks@.len() - i,
    {
        let ghost tv = seq_tokv(toks@.skip(i as int));
        if i == toks.len() {
            let ops: Vec<Op> = Vec::new();
            proof {
                assert(tv.len() == 0);
                assert(seq_opv(ops@) =~= Seq::<OpV>::empty());
            }
            return Ok(ops);
        }
        proof {
            assert(tv[0] == tokv(toks@[i as int]));
            assert(tv.drop_first() =~= seq_tokv(toks@.skip(i as int + 1)));
        }
        match &toks[i] {
            Token::Integer(x) => {
                let tail = match self.resolve_from(toks, i + 1) {
                    Ok(t) => t,
                    Err(e) => {
                        return Err(e);
                    },
                };
                let ghost tailv = tail@;
                let mut ops = tail;
                ops.insert(0, Op::Push(Literal::Integer(*x)));
                proof {
                    assert(ops@ =~= seq![Op::Push(Literal::Integer(*x))] + tailv);
                    assert(seq_opv(ops@) =~= seq![opv(ops@[0])] + seq_opv(tailv));
                }
                Ok(ops)
            },
            Token::Text(s) => {
                let tail = match self.resolve_from(toks, i + 1) {
                    Ok(t) => t,
                    Err(e) => {
                        return Err(e);
                    },
                };
                let lit = Literal::String(clone_string(s));
                let ghost tailv = tail@;
                let mut ops = tail;
                ops.insert(0, Op::Push(lit));
                proof {
                    assert(seq_opv(ops@) =~= seq![opv(ops@[0])] + seq_opv(tailv));
                }
                Ok(ops)
            },
            Token::Name(n) => {
                let kw = "variable".to_owned();
                if n.eq(&kw) {
                    if i + 1 < toks.len() {
                        match &toks[i + 1] {
                            Token::Name(vn) => {
                                proof {
                                    assert(tv[1] == tokv(toks@[i as int + 1]));
                                    assert(tv.skip(2) =~= seq_tokv(toks@.skip(i as int + 2)));
                                }
                                self.declare_variable(clone_string(vn));
                                self.resolve_from(toks, i + 2)
                            },
                            _ => {
                                proof {
                                    assert(tv[1] == tokv(toks@[i as int + 1]));
                                }
                                Err(ForthError::SyntaxError)
                            },
                        }
                    } else {
                        proof {
                            assert(tv.len() == 1);
                        }
                        Err(ForthError::SyntaxError)
                    }
                } else {
                    let c = self.lookup_const(n);
                    match c {
                        Some(value) => {
                            let tail = match self.resolve_from(toks, i + 1) {
                                Ok(t) => t,
                                Err(e) => {
                                    return Err(e);
                                },
                            };
                            let ghost tailv = tail@;
                            let mut ops = tail;
                            ops.insert(0, Op::Push(value));
                            proof {
                                assert(seq_opv(ops@) =~= seq![opv(ops@[0])] + seq_opv(tailv));
                            }
                            Ok(ops)
                        },
                        None => {
                            match self.get_variable_id(n) {
                                Some(vi) => {
                                    let tail = match self.resolve_from(toks, i + 1) {
                                        Ok(t) => t,
                                        Err(e) => {
                                            return Err(e);
                                        },
                                    };
                                    let ghost tailv = tail@;
                                    let mut ops = tail;
                                    ops.insert(
                                        0,
                                        Op::Push(
                                            Literal::Pointer(Pointer { address: vi, offset: 0 }),
                                        ),
                                    );
                                    proof {
                                        assert(seq_opv(ops@) =~= seq![opv(ops@[0])] + seq_opv(
                                            tailv,
                                        ));
                                    }
                                    Ok(ops)
                                },
                                None => {
                                    match self.lookup_native(n) {
                                        Some(w) => {
                                            let tail = match self.resolve_from(toks, i + 1) {
                                                Ok(t) => t,
                                                Err(e) => {
                                                    return Err(e);
                                                },
                                            };
                                            let ghost tailv = tail@;
                                            let mut ops = tail;
                                            ops.insert(0, Op::Native(w));
                                            proof {
                                                assert(seq_opv(ops@) =~= seq![opv(ops@[0])]
                                                    + seq_opv(tailv));
                                            }
                                            Ok(ops)
                                        },
                                        None => {
                                            match self.lookup_user(n) {
                                                Some(ui) => {
                                                    let tail = match self.resolve_from(
                                                        toks,
                                                        i + 1,
                                                    ) {
                                                        Ok(t) => t,
                                                        Err(e) => {
                                                            return Err(e);
                                                        },
                                                    };
                                                    let ghost tailv = tail@;
                                                    let mut ops = tail;
                                                    ops.insert(0, Op::User(ui));
                                                    proof {
                                                        assert(seq_opv(ops@) =~= seq![
                                                            opv(ops@[0]),
                                                        ] + seq_opv(tailv));
                                                    }
                                                    Ok(ops)
                                                },
                                                None => Err(ForthError::UndefinedWord),
                                            }
                                        },
                                    }
                                },
                            }
                        },
                    }
                }
            },
        }
    }

    /// Runs a compiled body element by element: literals push independent
    /// copies, native names invoke their primitive, other names invoke the
    /// user word they denote (natives always win), and an unresolvable
    /// name is an undefined-word failure. `depth` guards nesting: a call
    /// deeper than the budget fails with `RecursionLimit`. The constant
    /// store and both dictionaries are never touched.
    #[verifier::loop_isolation(false)]
    fn run_elems(&mut self, elems: &Vec<WordElement>, depth: u64) -> (r: Result<(), ForthError>)
        ensures
            old(self).same_dicts(&*final (self)),
        decreases depth, elems@.len(),
    {
        let n = elems.len();
        let mut i: usize = 0;
        while i < n
            invariant
                old(self).same_dicts(&*self),
                i <= n,
            decreases n - i,
        {
            match &elems[i] {
                WordElement::Literal(l) => {
                    let c = clone_literal(l);
                    self.stack.push(c);
                },
                WordElement::Word(name) => {
                    match self.lookup_native(name) {
                        Some(w) => {
                            match self.run_native(w) {
                                Ok(()) => {},
                                Err(e) => {
                                    return Err(e);
                                },
                            }
                        },
                        None => {
                            match self.lookup_user(name) {
                                Some(k) => {
                                    if depth == 0 {
                                        return Err(ForthError::RecursionLimit);
                                    }
                                    let body = clone_elems(&self.user_words[k].1);
                                    match self.run_elems(&body, depth - 1) {
                                        Ok(()) => {},
                                        Err(e) => {
                                            return Err(e);
                                        },
                                    }
                                },
                                None => {
                                    return Err(ForthError::UndefinedWord);
                                },
                            }
                        },
                    }
                },
            }
            i = i + 1;
        }
        Ok(())
    }

    /// Executes one line of source text.
    ///
    /// The line is lexed ([`spec_lex`]; a mismatch is a syntax error that
    /// changes nothing), resolved ([`resolve_spec`]; an unresolvable name
    /// is an undefined-word failure that leaves the stack exactly as it
    /// was before the line began), and then run element by element. A
    /// failure mid-line aborts the rest of the line, keeping whatever
    /// state the executed prefix produced. For a line free of user-word
    /// calls the result, the stack, and the store are exactly what
    /// [`run_simple`] says; the constant store and both dictionaries are
    /// never touched by line execution.
    #[verifier::loop_isolation(false)]
    pub fn execute_line(&mut self, line: &str) -> (r: Result<(), ForthError>)
        ensures
            old(self).same_dicts(&*final (self)),
            spec_lex(line@) is None ==> r == Err::<(), ForthError>(ForthError::SyntaxError)
                && final (self).stack_model() == old(self).stack_model()
                && final (self).vars_model() == old(self).vars_model(),
            ({
                let lx = spec_lex(line@);
                lx matches Some(toks) ==> {
                    let rs = resolve_spec(
                        toks,
                        old(self).vars_model(),
                        old(self).consts_model(),
                        old(self).natives_model(),
                        old(self).users_model(),
                    );
                    &&& (rs matches Err(e) ==> r == Err::<(), ForthError>(e)
                        && final (self).stack_model() == old(self).stack_model())
                    &&& (rs matches Ok(p) ==> (all_simple(p.0) ==> (
                        r,
                        final (self).stack_model(),
                        final (self).vars_model(),
                    ) == run_simple(p.0, old(self).stack_model(), p.1)))
                }
            }),
    {
        let toks = match tokenize(line) {
            Ok(t) => t,
            Err(e) => {
                return Err(e);
            },
        };
        proof {
            assert(toks@.skip(0) =~= toks@);
        }
        let ops = match self.resolve_from(&toks, 0) {
            Ok(o) => o,
            Err(e) => {
                return Err(e);
            },
        };
        let ghost st0 = old(self).stack_model();
        let ghost vars2 = self.vars_model();
        let ghost opsm = seq_opv(ops@);
        let n = ops.len();
        let mut i: usize = 0;
        proof {
            assert(opsm.skip(0) =~= opsm);
        }
        while i < n
            invariant
                old(self).same_dicts(&*self),
                i <= n,
                n == ops@.len(),
                all_simple(opsm) ==> run_simple(opsm, st0, vars2) == run_simple(
                    opsm.skip(i as int),
                    self.stack_model(),
                    self.vars_model(),
                ),
            decreases n - i,
        {
            proof {
                if all_simple(opsm) {
                    assert(opsm.skip(i as int)[0] == opsm[i as int]);
                    assert(opsm.skip(i as int).drop_first() =~= opsm.skip(i as int + 1));
                }
            }
            match &ops[i] {
                Op::Push(l) => {
                    let ghost pre = self.stack_model();
                    let c = clone_literal(l);
                    self.stack.push(c);
                    proof {
                        assert(self.stack_model() =~= pre.push(litv(c)));
                    }
                },
                Op::Native(w) => {
                    match self.run_native(*w) {
                        Ok(()) => {},
                        Err(e) => {
                            return Err(e);
                        },
                    }
                },
                Op::User(k) => {
                    proof {
                        assert(opsm[i as int] matches OpV::User(_));
                        assert(!all_simple(opsm));
                    }
                    let k = *k;
                    if k < self.user_words.len() {
                        let body = clone_elems(&self.user_words[k].1);
                        match self.run_elems(&body, MAX_CALL_DEPTH) {
                            Ok(()) => {},
                            Err(e) => {
                                return Err(e);
                            },
                        }
                    } else {
                        return Err(ForthError::UndefinedWord);
                    }
                },
            }
            i = i + 1;
        }
        proof {
            if all_simple(opsm) {
                assert(opsm.skip(n as int).len() == 0);
            }
        }
        Ok(())
    }
}

/// Produces an independent copy of a compiled-body element.
fn clone_word_element(e: &WordElement) -> WordElement {
    match e {
        WordElement::Literal(l) => WordElement::Literal(clone_literal(l)),
        WordElement::Word(s) => WordElement::Word(clone_string(s)),
    }
}

/// Produces an independent copy of a compiled body.
fn clone_elems(v: &Vec<WordElement>) -> Vec<WordElement> {
    let mut out: Vec<WordElement> = Vec::new();
    let n = v.len();
    let mut i: usize = 0;
    while i < n
        invariant
            n == v@.len(),
            i <= n,
        decreases n - i,
    {
        out.push(clone_word_element(&v[i]));
        i = i + 1;
    }
    out
}

/// Produces an independent copy of a string.
fn clone_string(s: &String) -> (r: String)
    ensures
        r@ == s@,
{
    s.clone()
}

/// Relies on std::io::Stdout: writes the text to the standard output
/// stream, nothing else.
#[verifier::external_body]
fn write_stdout(s: &str) {
    let _ = std::io::Write::write_all(&mut std::io::stdout(), s.as_bytes());
}

/// Relies on char::from_u32 and std::io::Stdout: writes the scalar value
/// `c` encodes to the standard output stream, nothing else.
#[verifier::external_body]
fn write_scalar(c: u32)
    requires
        is_scalar(c as int),
{
    if let Some(ch) = char::from_u32(c) {
        let _ = write!(&mut std::io::stdout(), "{}", ch);
    }
}

} // verus!
