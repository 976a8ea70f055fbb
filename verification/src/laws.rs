//! Engine-wide laws, stated over the same models that the executable
//! functions' contracts use, and proved from those definitions.

use vstd::prelude::*;

use crate::errors::ForthError;
use crate::interpreter::NativeWord;
use crate::interpreter::OpV;
use crate::interpreter::VarV;
use crate::interpreter::ElemV;
use crate::interpreter::fetch_step;
use crate::interpreter::find_const;
use crate::interpreter::find_native;
use crate::interpreter::resolve_spec;
use crate::interpreter::stack_step;
use crate::interpreter::store_step;
use crate::interpreter::var_index;
use crate::lexer::TokV;
use crate::literal::LitV;

verus! {

/// The stack after pushing the values of `vs` in order.
pub open spec fn after_pushes(st: Seq<LitV>, vs: Seq<LitV>) -> Seq<LitV> {
    st + vs
}

/// The stack after popping `m` values.
pub open spec fn after_pops(st: Seq<LitV>, m: nat) -> Seq<LitV>
    recommends
        m <= st.len(),
{
    st.take(st.len() - m)
}

/// Stack discipline: starting from the empty stack, after pushing N values
/// and popping M of them (M ≤ N) the stack holds exactly N − M values —
/// this is what `Stack::push` (appends one) and `Stack::pop` (removes the
/// last) compose to. Popping the empty stack is a stack underflow that
/// leaves the stack empty.
pub proof fn lemma_stack_discipline(vs: Seq<LitV>, m: nat)
    requires
        m <= vs.len(),
    ensures
        after_pops(after_pushes(Seq::<LitV>::empty(), vs), m).len() == vs.len() - m,
        stack_step(NativeWord::Drop, Seq::<LitV>::empty()) == (
            Err::<(), ForthError>(ForthError::StackUnderflow),
            Seq::<LitV>::empty(),
        ),
{
    assert(after_pushes(Seq::<LitV>::empty(), vs) =~= vs);
}

/// Variable round trip: pushing a value, pushing a pointer to a declared
/// slot, storing through the pointer (`!`), and then fetching through the
/// same pointer (`@`) succeeds and leaves the stored value, unchanged, on
/// top of the stack.
pub proof fn lemma_variable_round_trip(st: Seq<LitV>, vars: Seq<VarV>, addr: nat, v: LitV)
    requires
        addr < vars.len(),
    ensures
        ({
            let ptr = LitV::Pointer { address: addr, offset: 0 };
            let (r1, st1, vars1) = store_step(st.push(v).push(ptr), vars);
            let (r2, st2, vars2) = fetch_step(st1.push(ptr), vars1);
            &&& r1 == Ok::<(), ForthError>(())
            &&& r2 == Ok::<(), ForthError>(())
            &&& st1 == st
            &&& st2 == st.push(v)
            &&& vars2 == vars1
        }),
{
    let ptr = LitV::Pointer { address: addr, offset: 0 };
    assert(st.push(v).push(ptr).drop_last().drop_last() =~= st);
    let (r1, st1, vars1) = store_step(st.push(v).push(ptr), vars);
    assert(st1.push(ptr).drop_last() =~= st1);
}

/// Fetching a declared but still unset variable yields the integer zero,
/// not a failure.
pub proof fn lemma_fetch_unset(st: Seq<LitV>, vars: Seq<VarV>, addr: nat)
    requires
        addr < vars.len(),
        vars[addr as int].value is None,
    ensures
        ({
            let ptr = LitV::Pointer { address: addr, offset: 0 };
            fetch_step(st.push(ptr), vars) == (
                Ok::<(), ForthError>(()),
                st.push(LitV::Integer(0)),
                vars,
            )
        }),
{
    let ptr = LitV::Pointer { address: addr, offset: 0 };
    assert(st.push(ptr).drop_last() =~= st);
}

/// Word resolution precedence: natives always win. A name that denotes a
/// native primitive resolves to that primitive whatever the user-word
/// dictionary holds — a user-defined word can never shadow a native.
pub proof fn lemma_native_precedence(
    n: Seq<char>,
    w: NativeWord,
    vars: Seq<VarV>,
    consts: Seq<(Seq<char>, LitV)>,
    natives: Seq<(Seq<char>, NativeWord)>,
    users: Seq<(Seq<char>, Seq<ElemV>)>,
)
    requires
        n != "variable"@,
        find_const(consts, n) is None,
        var_index(vars, n) < 0,
        find_native(natives, n) == Some(w),
    ensures
        resolve_spec(seq![TokV::Name(n)], vars, consts, natives, users) == Ok::<
            _,
            ForthError,
        >((seq![OpV::Native(w)], vars)),
{
    let toks = seq![TokV::Name(n)];
    assert(toks.drop_first() =~= Seq::<TokV>::empty());
    assert(resolve_spec(toks.drop_first(), vars, consts, natives, users) == Ok::<_, ForthError>((
        Seq::<OpV>::empty(),
        vars,
    )));
    assert(seq![OpV::Native(w)] + Seq::<OpV>::empty() =~= seq![OpV::Native(w)]);
}

} // verus!
