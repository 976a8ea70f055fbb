//! The tagged value type of the engine and its mathematical model.

use vstd::prelude::*;
use vstd::string::StrSliceExecFns;

verus! {

/// An indirect reference to a variable slot.
///
/// `address` is the slot's position in the interpreter's variable list at
/// the moment the pointer literal was produced; slots are never renumbered,
/// so the address stays stable. `offset` is reserved for future array
/// addressing: it takes part in equality and ordering but is never combined
/// arithmetically with `address`.
#[derive(Debug, Clone, Copy, PartialEq, Eq, Structural)]
pub struct Pointer {
    pub address: usize,
    pub offset: usize,
}

impl Pointer {
    pub fn new(address: usize, offset: usize) -> (p: Self)
        ensures
            p.address == address,
            p.offset == offset,
    {
        Self { address, offset }
    }
}

/// A single typed value of the language: the closed tagged union over
/// pointers, signed 64-bit integers, text, nested heterogeneous arrays,
/// and the absence-of-value sentinel.
#[derive(Debug, PartialEq, Eq)]
pub enum Literal {
    Pointer(Pointer),
    Integer(i64),
    String(String),
    Array(Vec<Literal>),
    Unknown,
}

/// The mathematical model of a [`Literal`]: integers widen to `int`,
/// text becomes its character sequence, arrays become sequences of models.
///
/// Two literals are equal in the language exactly when their models are
/// equal, so model equality is heterogeneous-safe by construction: values
/// of different variants are never equal.
pub enum LitV {
    Pointer { address: nat, offset: nat },
    Integer(int),
    String(Seq<char>),
    Array(Seq<LitV>),
    Unknown,
}

/// The model of a literal.
pub open spec fn litv(l: Literal) -> LitV
    decreases l,
{
    match l {
        Literal::Pointer(p) => LitV::Pointer { address: p.address as nat, offset: p.offset as nat },
        Literal::Integer(i) => LitV::Integer(i as int),
        Literal::String(s) => LitV::String(s@),
        Literal::Array(v) => LitV::Array(
            Seq::new(
                v@.len(),
                |i: int|
                    if 0 <= i < v@.len() {
                        litv(v@[i])
                    } else {
                        LitV::Unknown
                    },
            ),
        ),
        Literal::Unknown => LitV::Unknown,
    }
}

/// The models of a sequence of literals, elementwise.
pub open spec fn seq_litv(s: Seq<Literal>) -> Seq<LitV> {
    Seq::new(s.len(), |i: int| litv(s[i]))
}

/// The model of an array literal is the sequence of its elements' models.
pub broadcast proof fn lemma_litv_array(v: Vec<Literal>)
    ensures
        #[trigger] litv(Literal::Array(v)) == LitV::Array(seq_litv(v@)),
{
    assert(litv(Literal::Array(v))->Array_0 =~= seq_litv(v@));
}

impl DeepView for Literal {
    type V = LitV;

    open spec fn deep_view(&self) -> LitV {
        litv(*self)
    }
}

impl Clone for Literal {
    /// Stack cells have value semantics: a clone is a fully independent
    /// copy with the same model, arrays included.
    fn clone(&self) -> (r: Self)
        ensures
            r.deep_view() == self.deep_view(),
    {
        clone_literal(self)
    }
}

/// Produces an independent copy of `a` with the same model.
pub fn clone_literal(a: &Literal) -> (r: Literal)
    ensures
        r.deep_view() == a.deep_view(),
    decreases *a,
{
    match a {
        Literal::Pointer(p) => Literal::Pointer(Pointer { address: p.address, offset: p.offset }),
        Literal::Integer(i) => Literal::Integer(*i),
        Literal::String(s) => Literal::String(s.clone()),
        Literal::Array(v) => {
            let mut out: Vec<Literal> = Vec::new();
            let n = v.len();
            let mut i: usize = 0;
            while i < n
                invariant
                    *a is Array,
                    (*a)->Array_0@ == v@,
                    n == v@.len(),
                    i <= n,
                    out@.len() == i,
                    forall|j: int| 0 <= j < i ==> out@[j].deep_view() == v@[j].deep_view(),
                decreases n - i,
            {
                proof {
                    assert(decreases_to!(*a => (*a)->Array_0@[i as int]));
                }
                let c = clone_literal(&v[i]);
                out.push(c);
                i = i + 1;
            }
            let r = Literal::Array(out);
            proof {
                lemma_litv_array(r->Array_0);
                lemma_litv_array((*a)->Array_0);
                assert(seq_litv(r->Array_0@) =~= seq_litv((*a)->Array_0@));
            }
            r
        },
        Literal::Unknown => Literal::Unknown,
    }
}

/// Decides language equality of two literals: `true` exactly when the
/// models are equal, so literals of different variants are never equal
/// and `Unknown` is equal only to `Unknown`.
pub fn literal_eq(a: &Literal, b: &Literal) -> (r: bool)
    ensures
        r == (a.deep_view() == b.deep_view()),
    decreases *a,
{
    match (a, b) {
        (Literal::Integer(x), Literal::Integer(y)) => *x == *y,
        (Literal::Pointer(p), Literal::Pointer(q)) => {
            p.address == q.address && p.offset == q.offset
        },
        (Literal::String(s), Literal::String(t)) => s.eq(t),
        (Literal::Array(va), Literal::Array(vb)) => {
            proof {
                lemma_litv_array((*a)->Array_0);
                lemma_litv_array((*b)->Array_0);
            }
            array_eq(va, vb)
        },
        (Literal::Unknown, Literal::Unknown) => true,
        _ => {
            proof {
                assert(a.deep_view() != b.deep_view());
            }
            false
        },
    }
}

/// Elementwise language equality of two arrays of literals.
fn array_eq(va: &Vec<Literal>, vb: &Vec<Literal>) -> (r: bool)
    ensures
        r == (seq_litv(va@) == seq_litv(vb@)),
    decreases *va,
{
    if va.len() != vb.len() {
        proof {
            assert(seq_litv(va@).len() != seq_litv(vb@).len());
        }
        return false;
    }
    let n = va.len();
    let mut i: usize = 0;
    while i < n
        invariant
            n == va@.len() == vb@.len(),
            i <= n,
            forall|j: int| 0 <= j < i ==> seq_litv(va@)[j] == seq_litv(vb@)[j],
        decreases n - i,
    {
        proof {
            assert(decreases_to!(*va => va@[i as int]));
        }
        if !literal_eq(&va[i], &vb[i]) {
            proof {
                assert(seq_litv(va@)[i as int] != seq_litv(vb@)[i as int]);
            }
            return false;
        }
        i = i + 1;
    }
    proof {
        assert(seq_litv(va@) =~= seq_litv(vb@));
    }
    true
}

/// The outcome of comparing two literals. Ordering is defined only within
/// a single variant; everything else — cross-variant pairs, `Unknown`
/// against anything (itself included), and arrays whose element pairs are
/// themselves incomparable — is `Incomparable`, which callers that need a
/// definite answer must treat as a failure.
#[derive(Debug, Clone, Copy, PartialEq, Eq, Structural)]
pub enum CmpRes {
    Lt,
    Eq,
    Gt,
    Incomparable,
}

/// Lexicographic comparison of two character sequences by scalar value.
pub open spec fn cmp_chars(a: Seq<char>, b: Seq<char>) -> CmpRes
    decreases a.len(),
{
    if a.len() == 0 && b.len() == 0 {
        CmpRes::Eq
    } else if a.len() == 0 {
        CmpRes::Lt
    } else if b.len() == 0 {
        CmpRes::Gt
    } else if (a[0] as u32) < (b[0] as u32) {
        CmpRes::Lt
    } else if (a[0] as u32) > (b[0] as u32) {
        CmpRes::Gt
    } else {
        cmp_chars(a.drop_first(), b.drop_first())
    }
}

/// Comparison of two literal models.
///
/// Integers order numerically; text orders lexicographically by scalar
/// value; pointers order by address, then offset; arrays order
/// lexicographically over their elements with shorter prefixes first.
pub open spec fn cmp_litv(a: LitV, b: LitV) -> CmpRes
    decreases a,
{
    match (a, b) {
        (LitV::Integer(x), LitV::Integer(y)) => {
            if x < y {
                CmpRes::Lt
            } else if x > y {
                CmpRes::Gt
            } else {
                CmpRes::Eq
            }
        },
        (LitV::Pointer { address: xa, offset: xo }, LitV::Pointer { address: ya, offset: yo }) => {
            if xa < ya {
                CmpRes::Lt
            } else if xa > ya {
                CmpRes::Gt
            } else if xo < yo {
                CmpRes::Lt
            } else if xo > yo {
                CmpRes::Gt
            } else {
                CmpRes::Eq
            }
        },
        (LitV::String(x), LitV::String(y)) => cmp_chars(x, y),
        (LitV::Array(x), LitV::Array(y)) => cmp_seq(x, y),
        _ => CmpRes::Incomparable,
    }
}

/// Lexicographic comparison of two sequences of literal models.
pub open spec fn cmp_seq(a: Seq<LitV>, b: Seq<LitV>) -> CmpRes
    decreases a,
{
    if a.len() == 0 && b.len() == 0 {
        CmpRes::Eq
    } else if a.len() == 0 {
        CmpRes::Lt
    } else if b.len() == 0 {
        CmpRes::Gt
    } else {
        match cmp_litv(a[0], b[0]) {
            CmpRes::Eq => cmp_seq(a.drop_first(), b.drop_first()),
            o => o,
        }
    }
}

/// Decides the ordering of two literals, per [`cmp_litv`].
pub fn cmp_literal(a: &Literal, b: &Literal) -> (r: CmpRes)
    ensures
        r == cmp_litv(a.deep_view(), b.deep_view()),
    decreases *a,
{
    match (a, b) {
        (Literal::Integer(x), Literal::Integer(y)) => {
            if *x < *y {
                CmpRes::Lt
            } else if *x > *y {
                CmpRes::Gt
            } else {
                CmpRes::Eq
            }
        },
        (Literal::Pointer(p), Literal::Pointer(q)) => {
            if p.address < q.address {
                CmpRes::Lt
            } else if p.address > q.address {
                CmpRes::Gt
            } else if p.offset < q.offset {
                CmpRes::Lt
            } else if p.offset > q.offset {
                CmpRes::Gt
            } else {
                CmpRes::Eq
            }
        },
        (Literal::String(s), Literal::String(t)) => cmp_string(s, t),
        (Literal::Array(va), Literal::Array(vb)) => {
            proof {
                lemma_litv_array((*a)->Array_0);
                lemma_litv_array((*b)->Array_0);
            }
            array_cmp(va, vb)
        },
        _ => {
            proof {
                assert(cmp_litv(a.deep_view(), b.deep_view()) == CmpRes::Incomparable);
            }
            CmpRes::Incomparable
        },
    }
}

/// Lexicographic comparison of two strings by scalar value.
fn cmp_string(s: &String, t: &String) -> (r: CmpRes)
    ensures
        r == cmp_chars(s@, t@),
{
    let ghost sa = s@;
    let ghost sb = t@;
    let na = s.as_str().unicode_len();
    let nb = t.as_str().unicode_len();
    let mut i: usize = 0;
    proof {
        assert(sa.skip(0) =~= sa);
        assert(sb.skip(0) =~= sb);
    }
    loop
        invariant
            na == sa.len(),
            nb == sb.len(),
            i <= na,
            i <= nb,
            sa == s@,
            sb == t@,
            cmp_chars(sa, sb) == cmp_chars(sa.skip(i as int), sb.skip(i as int)),
        decreases na - i,
    {
        proof {
            assert(sa.skip(i as int).len() == sa.len() - i);
            assert(sb.skip(i as int).len() == sb.len() - i);
        }
        if i == na && i == nb {
            return CmpRes::Eq;
        }
        if i == na {
            return CmpRes::Lt;
        }
        if i == nb {
            return CmpRes::Gt;
        }
        let ca = s.as_str().get_char(i);
        let cb = t.as_str().get_char(i);
        proof {
            assert(sa.skip(i as int)[0] == sa[i as int]);
            assert(sb.skip(i as int)[0] == sb[i as int]);
        }
        if (ca as u32) < (cb as u32) {
            return CmpRes::Lt;
        }
        if (ca as u32) > (cb as u32) {
            return CmpRes::Gt;
        }
        proof {
            assert(sa.skip(i as int).drop_first() =~= sa.skip(i as int + 1));
            assert(sb.skip(i as int).drop_first() =~= sb.skip(i as int + 1));
        }
        i = i + 1;
    }
}

/// Lexicographic comparison of two arrays of literals.
fn array_cmp(va: &Vec<Literal>, vb: &Vec<Literal>) -> (r: CmpRes)
    ensures
        r == cmp_seq(seq_litv(va@), seq_litv(vb@)),
    decreases *va,
{
    let ghost sa = seq_litv(va@);
    let ghost sb = seq_litv(vb@);
    let na = va.len();
    let nb = vb.len();
    let mut i: usize = 0;
    proof {
        assert(sa.skip(0) =~= sa);
        assert(sb.skip(0) =~= sb);
    }
    loop
        invariant
            sa == seq_litv(va@),
            sb == seq_litv(vb@),
            na == sa.len() == va@.len(),
            nb == sb.len() == vb@.len(),
            i <= na,
            i <= nb,
            cmp_seq(sa, sb) == cmp_seq(sa.skip(i as int), sb.skip(i as int)),
        decreases na - i,
    {
        proof {
            assert(sa.skip(i as int).len() == sa.len() - i);
            assert(sb.skip(i as int).len() == sb.len() - i);
        }
        if i == na && i == nb {
            return CmpRes::Eq;
        }
        if i == na {
            return CmpRes::Lt;
        }
        if i == nb {
            return CmpRes::Gt;
        }
        proof {
            assert(decreases_to!(*va => va@[i as int]));
            assert(sa.skip(i as int)[0] == sa[i as int]);
            assert(sb.skip(i as int)[0] == sb[i as int]);
        }
        let c = cmp_literal(&va[i], &vb[i]);
        if !matches!(c, CmpRes::Eq) {
            return c;
        }
        proof {
            assert(sa.skip(i as int).drop_first() =~= sa.skip(i as int + 1));
            assert(sb.skip(i as int).drop_first() =~= sb.skip(i as int + 1));
        }
        i = i + 1;
    }
}

/// The decimal digit character for `d`.
pub open spec fn digit_char(d: nat) -> char {
    if d == 0 {
        '0'
    } else if d == 1 {
        '1'
    } else if d == 2 {
        '2'
    } else if d == 3 {
        '3'
    } else if d == 4 {
        '4'
    } else if d == 5 {
        '5'
    } else if d == 6 {
        '6'
    } else if d == 7 {
        '7'
    } else if d == 8 {
        '8'
    } else {
        '9'
    }
}

/// The decimal digits of `n`, most significant first, no leading zeros
/// (a single `'0'` for zero).
pub open spec fn dec_nat(n: nat) -> Seq<char>
    decreases n,
{
    if n < 10 {
        seq![digit_char(n)]
    } else {
        dec_nat(n / 10) + seq![digit_char(n % 10)]
    }
}

/// The decimal form of `i`, with a leading `'-'` when negative.
pub open spec fn int_display(i: int) -> Seq<char> {
    if i < 0 {
        seq!['-'] + dec_nat((-i) as nat)
    } else {
        dec_nat(i as nat)
    }
}

/// The display form of a literal model: integers in decimal, text as-is,
/// pointers and arrays as structural text, `Unknown` as empty text.
pub open spec fn lit_display(v: LitV) -> Seq<char>
    decreases v,
{
    match v {
        LitV::Integer(i) => int_display(i),
        LitV::String(s) => s,
        LitV::Pointer { address, offset } => "Pointer { address: "@ + dec_nat(address) + ", offset: "@
            + dec_nat(offset) + " }"@,
        LitV::Array(elems) => seq!['['] + elems_display(elems) + seq![']'],
        LitV::Unknown => Seq::empty(),
    }
}

/// The display forms of a sequence of literal models, comma-separated.
pub open spec fn elems_display(s: Seq<LitV>) -> Seq<char>
    decreases s,
{
    if s.len() == 0 {
        Seq::empty()
    } else if s.len() == 1 {
        lit_display(s[0])
    } else {
        lit_display(s[0]) + ", "@ + elems_display(s.drop_first())
    }
}

/// The string slice holding the decimal digit `d`.
fn digit_str(d: u64) -> (r: &'static str)
    requires
        d < 10,
    ensures
        r@ == seq![digit_char(d as nat)],
{
    proof {
        reveal_strlit("0");
        reveal_strlit("1");
        reveal_strlit("2");
        reveal_strlit("3");
        reveal_strlit("4");
        reveal_strlit("5");
        reveal_strlit("6");
        reveal_strlit("7");
        reveal_strlit("8");
        reveal_strlit("9");
    }
    let r = if d == 0 {
        "0"
    } else if d == 1 {
        "1"
    } else if d == 2 {
        "2"
    } else if d == 3 {
        "3"
    } else if d == 4 {
        "4"
    } else if d == 5 {
        "5"
    } else if d == 6 {
        "6"
    } else if d == 7 {
        "7"
    } else if d == 8 {
        "8"
    } else {
        "9"
    };
    proof {
        assert(r@ =~= seq![digit_char(d as nat)]);
    }
    r
}

/// Appends the decimal digits of `n` to `out`.
fn append_dec(out: &mut String, n: u64)
    ensures
        final(out)@ == old(out)@ + dec_nat(n as nat),
    decreases n,
{
    if n < 10 {
        out.append(digit_str(n));
        proof {
            assert(final(out)@ =~= old(out)@ + dec_nat(n as nat));
        }
    } else {
        append_dec(out, n / 10);
        out.append(digit_str(n % 10));
        proof {
            assert(final(out)@ =~= old(out)@ + dec_nat(n as nat));
        }
    }
}

/// Appends the decimal form of `i` to `out`.
fn append_int(out: &mut String, i: i64)
    ensures
        final(out)@ == old(out)@ + int_display(i as int),
{
    if i >= 0 {
        append_dec(out, i as u64);
    } else {
        proof {
            reveal_strlit("-");
        }
        out.append("-");
        let m: u64 = (-(i as i128)) as u64;
        proof {
            assert(m as nat == (-(i as int)) as nat);
        }
        append_dec(out, m);
        proof {
            assert("-"@ =~= seq!['-']);
            assert(final(out)@ =~= old(out)@ + int_display(i as int));
        }
    }
}

/// Appends the display form of `l` to `out`.
fn append_literal(out: &mut String, l: &Literal)
    ensures
        final(out)@ == old(out)@ + lit_display(l.deep_view()),
    decreases *l, 0int,
{
    match l {
        Literal::Integer(i) => {
            append_int(out, *i);
        },
        Literal::String(s) => {
            out.append(s.as_str());
        },
        Literal::Pointer(p) => {
            proof {
                reveal_strlit("Pointer { address: ");
                reveal_strlit(", offset: ");
                reveal_strlit(" }");
            }
            out.append("Pointer { address: ");
            append_dec(out, p.address as u64);
            out.append(", offset: ");
            append_dec(out, p.offset as u64);
            out.append(" }");
            proof {
                assert(final(out)@ =~= old(out)@ + lit_display(l.deep_view()));
            }
        },
        Literal::Array(v) => {
            proof {
                reveal_strlit("[");
                reveal_strlit("]");
                lemma_litv_array((*l)->Array_0);
            }
            out.append("[");
            append_elems(out, v, 0);
            out.append("]");
            proof {
                assert("["@ =~= seq!['[']);
                assert("]"@ =~= seq![']']);
                assert(seq_litv(v@).skip(0) =~= seq_litv(v@));
                assert(final(out)@ =~= old(out)@ + lit_display(l.deep_view()));
            }
        },
        Literal::Unknown => {
            proof {
                assert(final(out)@ =~= old(out)@ + lit_display(l.deep_view()));
            }
        },
    }
}

/// Appends the comma-separated display forms of `v[idx..]` to `out`.
fn append_elems(out: &mut String, v: &Vec<Literal>, idx: usize)
    requires
        idx <= v@.len(),
    ensures
        final(out)@ == old(out)@ + elems_display(seq_litv(v@).skip(idx as int)),
    decreases *v, v@.len() - idx + 1,
{
    let ghost s = seq_litv(v@).skip(idx as int);
    if idx == v.len() {
        proof {
            assert(final(out)@ =~= old(out)@ + elems_display(s));
        }
        return ;
    }
    proof {
        assert(decreases_to!(*v => v@[idx as int]));
        assert(s[0] == seq_litv(v@)[idx as int]);
    }
    append_literal(out, &v[idx]);
    if idx + 1 == v.len() {
        proof {
            assert(s.len() == 1);
            assert(final(out)@ =~= old(out)@ + elems_display(s));
        }
        return ;
    }
    proof {
        reveal_strlit(", ");
    }
    out.append(", ");
    append_elems(out, v, idx + 1);
    proof {
        assert(s.drop_first() =~= seq_litv(v@).skip(idx as int + 1));
        assert(final(out)@ =~= old(out)@ + elems_display(s));
    }
}

/// The display form of `l` as a fresh string: integers in decimal, text
/// as-is, pointers and arrays as structural text, `Unknown` as empty text.
pub fn display_literal(l: &Literal) -> (r: String)
    ensures
        r@ == lit_display(l.deep_view()),
{
    let mut out = String::new();
    append_literal(&mut out, l);
    proof {
        assert(out@ =~= lit_display(l.deep_view()));
    }
    out
}

} // verus!
