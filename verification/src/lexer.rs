//! The lexical grammar of a source line.
//!
//! A line is a whitespace-separated sequence of tokens: a quoted run of
//! characters is a text token, a word made of an optional leading `-` and
//! decimal digits is an integer token, and any other word is a name token.
//! A numeral that does not fit a signed 64-bit cell, or a quote that is
//! never closed, is a syntax error.

use vstd::prelude::*;
use vstd::string::StrSliceExecFns;

use crate::errors::ForthError;

verus! {

/// A typed token of a source line.
#[derive(Debug, PartialEq, Eq, Clone)]
pub enum Token {
    Integer(i64),
    Text(String),
    Name(String),
}

/// The model of a token.
pub enum TokV {
    Integer(i64),
    Text(Seq<char>),
    Name(Seq<char>),
}

/// The model of an exec token.
pub open spec fn tokv(t: Token) -> TokV {
    match t {
        Token::Integer(i) => TokV::Integer(i),
        Token::Text(s) => TokV::Text(s@),
        Token::Name(s) => TokV::Name(s@),
    }
}

/// The models of a sequence of tokens, elementwise.
pub open spec fn seq_tokv(ts: Seq<Token>) -> Seq<TokV> {
    Seq::new(ts.len(), |i: int| tokv(ts[i]))
}

/// Token-separating whitespace.
pub open spec fn is_space(c: char) -> bool {
    c == ' ' || c == '\t' || c == '\r' || c == '\n'
}

/// A decimal digit.
pub open spec fn is_digit(c: char) -> bool {
    ('0' as u32) <= (c as u32) && (c as u32) <= ('9' as u32)
}

/// A character that may stand inside an unquoted word.
pub open spec fn is_word_char(c: char) -> bool {
    !is_space(c) && c != '"'
}

/// The numeric value of a digit character.
pub open spec fn digit_val(c: char) -> nat {
    ((c as u32) - ('0' as u32)) as nat
}

/// Every character of `s` is a decimal digit.
pub open spec fn all_digits(s: Seq<char>) -> bool {
    forall|k: int| 0 <= k < s.len() ==> is_digit(#[trigger] s[k])
}

/// `w` is a numeral: an optional leading `-`, then one or more digits.
pub open spec fn is_numeral(w: Seq<char>) -> bool {
    if w.len() >= 1 && w[0] == '-' {
        w.len() >= 2 && all_digits(w.drop_first())
    } else {
        w.len() >= 1 && all_digits(w)
    }
}

/// The value of a digit string, most significant digit first.
pub open spec fn numeral_nat(s: Seq<char>) -> nat
    decreases s.len(),
{
    if s.len() == 0 {
        0
    } else {
        numeral_nat(s.drop_last()) * 10 + digit_val(s.last())
    }
}

/// The signed value of a numeral.
pub open spec fn numeral_value(w: Seq<char>) -> int
    recommends
        is_numeral(w),
{
    if w.len() >= 1 && w[0] == '-' {
        -(numeral_nat(w.drop_first()) as int)
    } else {
        numeral_nat(w) as int
    }
}

/// The token an unquoted word stands for: an integer when the word is a
/// numeral whose value fits a signed 64-bit cell, a name when it is no
/// numeral at all, and nothing (a syntax error) when it is a numeral out
/// of range.
pub open spec fn token_of_word(w: Seq<char>) -> Option<TokV> {
    if is_numeral(w) {
        if i64::MIN <= numeral_value(w) <= i64::MAX {
            Some(TokV::Integer(numeral_value(w) as i64))
        } else {
            None
        }
    } else {
        Some(TokV::Name(w))
    }
}

/// The position of the first `"` in `s`, or -1 when there is none.
pub open spec fn find_quote(s: Seq<char>) -> int
    decreases s.len(),
{
    if s.len() == 0 {
        -1
    } else if s[0] == '"' {
        0
    } else {
        let r = find_quote(s.drop_first());
        if r < 0 {
            -1
        } else {
            r + 1
        }
    }
}

/// The token sequence of a line of source text, or nothing when the line
/// does not match the grammar.
pub open spec fn spec_lex(s: Seq<char>) -> Option<Seq<TokV>>
    decreases s.len(),
{
    if s.len() == 0 {
        Some(Seq::empty())
    } else if is_space(s[0]) {
        spec_lex(s.drop_first())
    } else if s[0] == '"' {
        let rest = s.drop_first();
        let q = find_quote(rest);
        if 0 <= q < rest.len() {
            match spec_lex(rest.skip(q + 1)) {
                Option::None => None,
                Option::Some(ts) => Some(seq![TokV::Text(rest.take(q))] + ts),
            }
        } else {
            None
        }
    } else {
        let e = word_len(s);
        if 1 <= e <= s.len() {
            match token_of_word(s.take(e)) {
                Option::None => None,
                Option::Some(t) => match spec_lex(s.skip(e)) {
                    Option::None => None,
                    Option::Some(ts) => Some(seq![t] + ts),
                },
            }
        } else {
            None
        }
    }
}

/// The length of the longest word-character prefix of `s`.
pub open spec fn word_len(s: Seq<char>) -> int
    decreases s.len(),
{
    if s.len() == 0 || !is_word_char(s[0]) {
        0
    } else {
        1 + word_len(s.drop_first())
    }
}

/// `word_len` equals the position of the first non-word character.
proof fn lemma_word_len(s: Seq<char>, p: int)
    requires
        0 <= p <= s.len(),
        forall|k: int| 0 <= k < p ==> is_word_char(#[trigger] s[k]),
        p == s.len() || !is_word_char(s[p]),
    ensures
        word_len(s) == p,
    decreases p,
{
    if p > 0 {
        lemma_word_len(s.drop_first(), p - 1);
    }
}

/// `find_quote` finds the position of the first quote.
proof fn lemma_find_quote_at(s: Seq<char>, p: int)
    requires
        0 <= p < s.len(),
        s[p] == '"',
        forall|k: int| 0 <= k < p ==> #[trigger] s[k] != '"',
    ensures
        find_quote(s) == p,
    decreases p,
{
    if p > 0 {
        lemma_find_quote_at(s.drop_first(), p - 1);
    }
}

/// With no quote in `s`, `find_quote` reports -1.
proof fn lemma_find_quote_none(s: Seq<char>)
    requires
        forall|k: int| 0 <= k < s.len() ==> #[trigger] s[k] != '"',
    ensures
        find_quote(s) == -1,
    decreases s.len(),
{
    if s.len() > 0 {
        lemma_find_quote_none(s.drop_first());
    }
}

/// Whitespace test on an exec character.
fn space_char(c: char) -> (r: bool)
    ensures
        r == is_space(c),
{
    c == ' ' || c == '\t' || c == '\r' || c == '\n'
}

/// Word-character test on an exec character.
fn word_char(c: char) -> (r: bool)
    ensures
        r == is_word_char(c),
{
    !space_char(c) && c != '"'
}

/// Classifies an unquoted word per [`token_of_word`].
fn classify_word(w: &str) -> (r: Result<Token, ForthError>)
    ensures
        match r {
            Ok(t) => token_of_word(w@) == Some(tokv(t)),
            Err(e) => token_of_word(w@) is None && e == ForthError::SyntaxError,
        },
{
    let n = w.unicode_len();
    let neg = n >= 1 && w.get_char(0) == '-';
    let off: usize = if neg {
        1
    } else {
        0
    };
    let ghost digs = if neg {
        w@.drop_first()
    } else {
        w@
    };
    // A word that is no numeral is a name.
    let mut k: usize = off;
    let mut digits_ok = n > off;
    while k < n && digits_ok
        invariant
            n == w@.len(),
            off <= k <= n,
            off <= 1,
            neg ==> off == 1 && w@.len() >= 1 && w@[0] == '-',
            !neg ==> off == 0 && (n == 0 || w@[0] != '-'),
            digs == if neg {
                w@.drop_first()
            } else {
                w@
            },
            digits_ok ==> n > off && forall|j: int|
                0 <= j < k - off ==> is_digit(#[trigger] digs[j]),
            !digits_ok ==> !is_numeral(w@),
        decreases n - k,
    {
        let c = w.get_char(k);
        let d = (c as u32) >= ('0' as u32) && (c as u32) <= ('9' as u32);
        if !d {
            proof {
                assert(digs[k - off] == w@[k as int]);
                assert(!is_digit(digs[k - off]));
                assert(!is_numeral(w@));
            }
            digits_ok = false;
        }
        k = k + 1;
    }
    if !digits_ok {
        return Ok(Token::Name(w.to_owned()));
    }
    proof {
        assert(digs.len() == n - off);
        assert(all_digits(digs));
        assert(is_numeral(w@));
    }
    // The word is a numeral: accumulate its magnitude, stopping once it can
    // no longer fit a signed 64-bit cell.
    let mut acc: u128 = 0;
    let mut over = false;
    let bound: u128 = 9223372036854775808;
    let mut k2: usize = off;
    while k2 < n
        invariant
            n == w@.len(),
            off <= k2 <= n,
            off <= 1,
            digs == if neg {
                w@.drop_first()
            } else {
                w@
            },
            digs.len() == n - off,
            all_digits(digs),
            bound == 0x8000_0000_0000_0000u128,
            !over ==> acc <= bound && acc == numeral_nat(digs.take(k2 - off)),
            over ==> numeral_nat(digs.take(k2 - off)) > bound,
        decreases n - k2,
    {
        let c = w.get_char(k2);
        let d: u128 = ((c as u32) - ('0' as u32)) as u128;
        proof {
            assert(digs[k2 - off] == w@[k2 as int]);
            assert(is_digit(digs[k2 - off]));
            assert(d == digit_val(digs[k2 - off]));
            assert(digs.take(k2 - off + 1).drop_last() =~= digs.take(k2 - off));
            assert(digs.take(k2 - off + 1).last() == digs[k2 - off]);
        }
        if over {
            proof {
                assert(numeral_nat(digs.take(k2 - off + 1)) >= numeral_nat(
                    digs.take(k2 - off),
                ) * 10);
            }
        } else {
            let next = acc * 10 + d;
            if next > bound {
                over = true;
            } else {
                acc = next;
            }
        }
        k2 = k2 + 1;
    }
    proof {
        assert(digs.take(n - off) =~= digs);
    }
    if over {
        proof {
            assert(token_of_word(w@) is None);
        }
        return Err(ForthError::SyntaxError);
    }
    if neg {
        if acc == bound {
            return Ok(Token::Integer(i64::MIN));
        }
        let v: i64 = -(acc as i64);
        return Ok(Token::Integer(v));
    }
    if acc == bound {
        proof {
            assert(numeral_value(w@) == bound);
            assert(token_of_word(w@) is None);
        }
        return Err(ForthError::SyntaxError);
    }
    Ok(Token::Integer(acc as i64))
}

/// Lexes a whole line per [`spec_lex`]; a failure is always a syntax error.
pub fn tokenize(line: &str) -> (r: Result<Vec<Token>, ForthError>)
    ensures
        match r {
            Ok(ts) => spec_lex(line@) == Some(seq_tokv(ts@)),
            Err(e) => spec_lex(line@) is None && e == ForthError::SyntaxError,
        },
{
    let n = line.unicode_len();
    let r = lex_from(line, n, 0);
    proof {
        assert(line@.skip(0) =~= line@);
    }
    r
}

/// Lexes the tail of `line` that starts at character `i`.
fn lex_from(line: &str, n: usize, i: usize) -> (r: Result<Vec<Token>, ForthError>)
    requires
        n == line@.len(),
        i <= n,
    ensures
        match r {
            Ok(ts) => spec_lex(line@.skip(i as int)) == Some(seq_tokv(ts@)),
            Err(e) => spec_lex(line@.skip(i as int)) is None && e == ForthError::SyntaxError,
        },
    decreases n - i,
{
    let ghost s = line@.skip(i as int);
    proof {
        assert(s.len() == n - i);
    }
    if i == n {
        let ts: Vec<Token> = Vec::new();
        proof {
            assert(seq_tokv(ts@) =~= Seq::<TokV>::empty());
        }
        return Ok(ts);
    }
    proof {
        assert(s[0] == line@[i as int]);
    }
    let c = line.get_char(i);
    if space_char(c) {
        proof {
            assert(s.drop_first() =~= line@.skip(i as int + 1));
        }
        return lex_from(line, n, i + 1);
    }
    if c == '"' {
        let ghost rest = s.drop_first();
        proof {
            assert(rest =~= line@.skip(i as int + 1));
        }
        // scan for the closing quote
        let mut j = i + 1;
        while j < n && line.get_char(j) != '"'
            invariant
                n == line@.len(),
                i + 1 <= j <= n,
                rest == line@.skip(i as int + 1),
                forall|k: int| i + 1 <= k < j ==> #[trigger] line@[k] != '"',
            decreases n - j,
        {
            j = j + 1;
        }
        if j == n {
            proof {
                assert(forall|k: int| 0 <= k < rest.len() ==> #[trigger] rest[k] != '"') by {
                    assert(forall|k: int|
                        0 <= k < rest.len() ==> #[trigger] rest[k] == line@[i + 1 + k]);
                }
                lemma_find_quote_none(rest);
            }
            return Err(ForthError::SyntaxError);
        }
        proof {
            assert(line@[j as int] == '"');
            assert(rest[j - i - 1] == line@[j as int]);
            assert(forall|k: int| 0 <= k < j - i - 1 ==> #[trigger] rest[k] != '"') by {
                assert(forall|k: int|
                    0 <= k < j - i - 1 ==> #[trigger] rest[k] == line@[i + 1 + k]);
            }
            lemma_find_quote_at(rest, j - i - 1);
        }
        let text = line.substring_char(i + 1, j);
        let tok = Token::Text(text.to_owned());
        proof {
            assert(rest.take(j - i - 1) =~= line@.subrange(i as int + 1, j as int));
            assert(rest.skip(j - i) =~= line@.skip(j as int + 1));
        }
        let tail = match lex_from(line, n, j + 1) {
            Ok(ts) => ts,
            Err(e) => {
                return Err(e);
            },
        };
        let ghost tailv = tail@;
        let mut ts = tail;
        ts.insert(0, tok);
        proof {
            assert(ts@ =~= seq![tok] + tailv);
            assert(seq_tokv(ts@) =~= seq![tokv(tok)] + seq_tokv(tailv));
        }
        return Ok(ts);
    }
    // an unquoted word
    let mut j = i;
    while j < n && word_char(line.get_char(j))
        invariant
            n == line@.len(),
            i <= j <= n,
            s == line@.skip(i as int),
            forall|k: int| i <= k < j ==> is_word_char(#[trigger] line@[k]),
        decreases n - j,
    {
        j = j + 1;
    }
    proof {
        assert(is_word_char(line@[i as int]));
        assert(j > i);
        assert(forall|k: int| 0 <= k < j - i ==> is_word_char(#[trigger] s[k])) by {
            assert(forall|k: int| 0 <= k < j - i ==> #[trigger] s[k] == line@[i + k]);
        }
        if j < n {
            assert(s[j - i] == line@[j as int]);
        }
        lemma_word_len(s, j - i);
        assert(word_len(s) == j - i);
    }
    let word = line.substring_char(i, j);
    proof {
        assert(word@ =~= s.take(j - i));
    }
    let tok = match classify_word(word) {
        Ok(t) => t,
        Err(e) => {
            return Err(e);
        },
    };
    proof {
        assert(s.skip(j - i) =~= line@.skip(j as int));
    }
    let tail = match lex_from(line, n, j) {
        Ok(ts) => ts,
        Err(e) => {
            return Err(e);
        },
    };
    let ghost tailv = tail@;
    let mut ts = tail;
    ts.insert(0, tok);
    proof {
        assert(ts@ =~= seq![tok] + tailv);
        assert(seq_tokv(ts@) =~= seq![tokv(tok)] + seq_tokv(tailv));
    }
    Ok(ts)
}

} // verus!
