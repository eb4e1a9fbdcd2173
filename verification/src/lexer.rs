//! The tokenizer: turns raw source text into a flat sequence of tokens.

use vstd::prelude::*;

use crate::error::{ErrorModel, LispError};
use crate::token::{Token, TokenModel};

verus! {

broadcast use vstd::string::group_string_axioms;

/// The whitespace characters the tokenizer skips.
pub open spec fn is_ws(c: char) -> bool {
    c == ' ' || c == '\t' || c == '\n' || c == '\r'
}

/// A decimal digit.
pub open spec fn is_digit_char(c: char) -> bool {
    48 <= c as u32 && c as u32 <= 57
}

/// The numeric value of a decimal digit character.
pub open spec fn digit_val(c: char) -> nat {
    (c as u32 - 48) as nat
}

/// A character that ends a symbol: whitespace or a delimiter.
pub open spec fn is_sym_break(c: char) -> bool {
    is_ws(c) || c == '(' || c == ')' || c == '"' || c == '\''
}

/// The first position at or after `i` that does not hold whitespace.
pub open spec fn skip_ws(s: Seq<char>, i: int) -> int
    decreases s.len() - i,
{
    if i < 0 || i >= s.len() {
        i
    } else if is_ws(s[i]) {
        skip_ws(s, i + 1)
    } else {
        i
    }
}

pub proof fn lemma_skip_ws_bounds(s: Seq<char>, i: int)
    requires
        0 <= i <= s.len(),
    ensures
        i <= skip_ws(s, i) <= s.len(),
        skip_ws(s, i) < s.len() ==> !is_ws(s[skip_ws(s, i)]),
    decreases s.len() - i,
{
    if i < s.len() && is_ws(s[i]) {
        lemma_skip_ws_bounds(s, i + 1);
    }
}

/// The end of the maximal run of digits starting at `i`.
pub open spec fn num_end(s: Seq<char>, i: int) -> int
    decreases s.len() - i,
{
    if i < 0 || i >= s.len() {
        i
    } else if is_digit_char(s[i]) {
        num_end(s, i + 1)
    } else {
        i
    }
}

pub proof fn lemma_num_end_bounds(s: Seq<char>, i: int)
    requires
        0 <= i <= s.len(),
    ensures
        i <= num_end(s, i) <= s.len(),
    decreases s.len() - i,
{
    if i < s.len() && is_digit_char(s[i]) {
        lemma_num_end_bounds(s, i + 1);
    }
}

/// The value of the digit run `s[i .. j)`, read in decimal.
pub open spec fn num_val(s: Seq<char>, i: int, j: int) -> nat
    decreases j - i,
{
    if j <= i {
        0
    } else {
        num_val(s, i, j - 1) * 10 + digit_val(s[j - 1])
    }
}

/// A longer digit run never has a smaller value.
pub proof fn lemma_num_val_mono(s: Seq<char>, i: int, j: int, e: int)
    requires
        i <= j <= e,
    ensures
        num_val(s, i, e) >= num_val(s, i, j),
    decreases e - j,
{
    if j < e {
        lemma_num_val_mono(s, i, j, e - 1);
        assert(num_val(s, i, e - 1) * 10 + digit_val(s[e - 1]) >= num_val(s, i, e - 1))
            by (nonlinear_arith);
    }
}

/// The end of the maximal symbol run starting at `i`.
pub open spec fn sym_end(s: Seq<char>, i: int) -> int
    decreases s.len() - i,
{
    if i < 0 || i >= s.len() {
        i
    } else if is_sym_break(s[i]) {
        i
    } else {
        sym_end(s, i + 1)
    }
}

pub proof fn lemma_sym_end_bounds(s: Seq<char>, i: int)
    requires
        0 <= i <= s.len(),
    ensures
        i <= sym_end(s, i) <= s.len(),
    decreases s.len() - i,
{
    if i < s.len() && !is_sym_break(s[i]) {
        lemma_sym_end_bounds(s, i + 1);
    }
}

/// A run of non-break characters up to a break (or the end) is exactly
/// the maximal symbol run.
pub proof fn lemma_sym_end_run(s: Seq<char>, i: int, j: int)
    requires
        0 <= i <= j <= s.len(),
        forall|k: int| i <= k < j ==> !is_sym_break(s[k]),
        j == s.len() || is_sym_break(s[j]),
    ensures
        sym_end(s, i) == j,
    decreases j - i,
{
    if i < j {
        lemma_sym_end_run(s, i + 1, j);
    }
}

/// A run of digits up to a non-digit (or the end) is exactly the maximal
/// digit run.
pub proof fn lemma_num_end_run(s: Seq<char>, i: int, j: int)
    requires
        0 <= i <= j <= s.len(),
        forall|k: int| i <= k < j ==> is_digit_char(s[k]),
        j == s.len() || !is_digit_char(s[j]),
    ensures
        num_end(s, i) == j,
    decreases j - i,
{
    if i < j {
        lemma_num_end_run(s, i + 1, j);
    }
}

/// Every character inside the maximal symbol run is a non-break.
pub proof fn lemma_sym_run_chars(s: Seq<char>, i: int)
    requires
        0 <= i <= s.len(),
    ensures
        forall|m: int| i <= m < sym_end(s, i) ==> !is_sym_break(s[m]),
    decreases s.len() - i,
{
    if i < s.len() && !is_sym_break(s[i]) {
        lemma_sym_run_chars(s, i + 1);
    }
}

/// Scans a string literal body from `i`, with `q` the quote character
/// that opened it. Yields the decoded content (each backslash escape
/// contributing the escaped character) and the position after the
/// closing quote, or `None` when the literal never closes.
pub open spec fn str_scan(s: Seq<char>, q: char, i: int) -> Option<(Seq<char>, int)>
    decreases s.len() - i,
{
    if i < 0 || i >= s.len() {
        Option::None
    } else if s[i] == q {
        Option::Some((Seq::empty(), i + 1))
    } else if s[i] == '\\' {
        if i + 1 >= s.len() {
            Option::None
        } else {
            match str_scan(s, q, i + 2) {
                Option::Some((c, j)) => Option::Some((seq![s[i + 1]] + c, j)),
                Option::None => Option::None,
            }
        }
    } else {
        match str_scan(s, q, i + 1) {
            Option::Some((c, j)) => Option::Some((seq![s[i]] + c, j)),
            Option::None => Option::None,
        }
    }
}

pub proof fn lemma_str_scan_bounds(s: Seq<char>, q: char, i: int)
    requires
        0 <= i,
    ensures
        match str_scan(s, q, i) {
            Option::Some((c, j)) => i < j <= s.len(),
            Option::None => true,
        },
    decreases s.len() - i,
{
    if 0 <= i < s.len() && s[i] != q {
        if s[i] == '\\' {
            if i + 1 < s.len() {
                lemma_str_scan_bounds(s, q, i + 2);
            }
        } else {
            lemma_str_scan_bounds(s, q, i + 1);
        }
    }
}

/// Classifies the token that starts at position `i`, which must not hold
/// whitespace. Yields the token and the position just after it; the token
/// is `Eof` exactly at the end of the input.
pub open spec fn spec_next_token(s: Seq<char>, i: int) -> Result<(TokenModel, int), ErrorModel> {
    if i >= s.len() {
        Result::Ok((TokenModel::Eof, i))
    } else if s[i] == '(' {
        Result::Ok((TokenModel::LOpen, i + 1))
    } else if s[i] == ')' {
        Result::Ok((TokenModel::LClose, i + 1))
    } else if s[i] == '"' || s[i] == '\'' {
        match str_scan(s, s[i], i + 1) {
            Option::Some((c, j)) => Result::Ok((TokenModel::StrLit(c), j)),
            Option::None => Result::Err(ErrorModel::UnterminatedString),
        }
    } else if is_digit_char(s[i]) {
        if num_val(s, i, num_end(s, i)) <= u64::MAX {
            Result::Ok((TokenModel::Number(num_val(s, i, num_end(s, i)) as u64), num_end(s, i)))
        } else {
            Result::Err(ErrorModel::NumberTooLarge)
        }
    } else {
        Result::Ok((TokenModel::Symbol(s.subrange(i, sym_end(s, i))), sym_end(s, i)))
    }
}

pub proof fn lemma_next_token_bounds(s: Seq<char>, i: int)
    requires
        0 <= i <= s.len(),
        i < s.len() ==> !is_ws(s[i]),
    ensures
        match spec_next_token(s, i) {
            Result::Ok((t, j)) => (t is Eof && j == i) || (i < j <= s.len()),
            Result::Err(_) => true,
        },
{
    if i < s.len() {
        if s[i] == '"' || s[i] == '\'' {
            lemma_str_scan_bounds(s, s[i], i + 1);
        } else if is_digit_char(s[i]) {
            lemma_num_end_bounds(s, i + 1);
        } else if s[i] != '(' && s[i] != ')' {
            assert(!is_sym_break(s[i]));
            lemma_sym_end_bounds(s, i + 1);
        }
    }
}

/// The token sequence of the source from position `i` on: skip
/// whitespace, read one token, continue after it. The `Eof` marker ends
/// tokenization and is not part of the sequence.
pub open spec fn spec_tokenize(s: Seq<char>, i: int) -> Result<Seq<TokenModel>, ErrorModel>
    decreases s.len() - i,
    when 0 <= i <= s.len()
{
    let k = skip_ws(s, i);
    proof {
        lemma_skip_ws_bounds(s, i);
        lemma_next_token_bounds(s, k);
    }
    match spec_next_token(s, k) {
        Result::Err(e) => Result::Err(e),
        Result::Ok((t, j)) => if t is Eof {
            Result::Ok(Seq::empty())
        } else {
            match spec_tokenize(s, j) {
                Result::Ok(ts) => Result::Ok(seq![t] + ts),
                Result::Err(e) => Result::Err(e),
            }
        },
    }
}

/// Whether a character is whitespace to the tokenizer.
fn is_ws_exec(c: char) -> (r: bool)
    ensures
        r == is_ws(c),
{
    c == ' ' || c == '\t' || c == '\n' || c == '\r'
}

/// Whether a character is a decimal digit.
fn is_digit_exec(c: char) -> (r: bool)
    ensures
        r == is_digit_char(c),
{
    let u = c as u32;
    48 <= u && u <= 57
}

/// Whether a character ends a symbol.
fn is_sym_break_exec(c: char) -> (r: bool)
    ensures
        r == is_sym_break(c),
{
    is_ws_exec(c) || c == '(' || c == ')' || c == '"' || c == '\''
}

/// Advances past leading whitespace.
fn skip_whitespace(code: &str, i: usize) -> (j: usize)
    requires
        i <= code@.len(),
    ensures
        j as int == skip_ws(code@, i as int),
        i <= j <= code@.len(),
        j < code@.len() ==> !is_ws(code@[j as int]),
{
    let s = Ghost(code@);
    let n = code.unicode_len();
    let mut j = i;
    while j < n && is_ws_exec(code.get_char(j))
        invariant
            i <= j <= n,
            n == s@.len(),
            s@ == code@,
            skip_ws(s@, i as int) == skip_ws(s@, j as int),
        decreases n - j,
    {
        j = j + 1;
    }
    j
}

/// Reads a string literal starting at the opening quote `code[i]`,
/// decoding backslash escapes.
fn get_string(code: &str, i: usize) -> (r: Result<(Token, usize), LispError>)
    requires
        i < code@.len(),
        code@[i as int] == '"' || code@[i as int] == '\'',
    ensures
        match r {
            Result::Ok((t, j)) => spec_next_token(code@, i as int) == Result::<(TokenModel, int), ErrorModel>::Ok(
                (t@, j as int),
            ) && i < j <= code@.len(),
            Result::Err(e) => spec_next_token(code@, i as int) == Result::<(TokenModel, int), ErrorModel>::Err(
                e@,
            ),
        },
{
    let s = Ghost(code@);
    let n = code.unicode_len();
    let q = code.get_char(i);
    let mut j = i + 1;
    let mut content = String::new();
    while j < n
        invariant
            i + 1 <= j <= n,
            n == s@.len(),
            s@ == code@,
            q == s@[i as int],
            q == '"' || q == '\'',
            match str_scan(s@, q, j as int) {
                Option::Some((c, jj)) => str_scan(s@, q, i + 1) == Option::Some(
                    (content@ + c, jj),
                ),
                Option::None => str_scan(s@, q, i + 1) is None,
            },
        decreases n - j,
    {
        let c = code.get_char(j);
        if c == q {
            proof {
                lemma_str_scan_bounds(s@, q, i + 1);
                assert(content@ + Seq::<char>::empty() =~= content@);
            }
            return Result::Ok((Token::StrLit(content), j + 1));
        }
        if c == '\\' {
            if j + 1 >= n {
                return Result::Err(LispError::UnterminatedString);
            }
            let piece = code.substring_char(j + 1, j + 2);
            let ghost oc = content@;
            content.append(piece);
            proof {
                assert(piece@ =~= seq![s@[j + 1]]);
                assert forall|cc: Seq<char>, jj: int|
                    str_scan(s@, q, j + 2) == Option::Some((cc, jj)) implies str_scan(
                    s@,
                    q,
                    i + 1,
                ) == Option::Some((content@ + cc, jj)) by {
                    assert((oc + seq![s@[j + 1]]) + cc =~= oc + (seq![s@[j + 1]] + cc));
                }
            }
            j = j + 2;
        } else {
            let piece = code.substring_char(j, j + 1);
            let ghost oc = content@;
            content.append(piece);
            proof {
                assert(piece@ =~= seq![s@[j as int]]);
                assert forall|cc: Seq<char>, jj: int|
                    str_scan(s@, q, j + 1) == Option::Some((cc, jj)) implies str_scan(
                    s@,
                    q,
                    i + 1,
                ) == Option::Some((content@ + cc, jj)) by {
                    assert((oc + seq![s@[j as int]]) + cc =~= oc + (seq![s@[j as int]] + cc));
                }
            }
            j = j + 1;
        }
    }
    Result::Err(LispError::UnterminatedString)
}

/// Reads the maximal run of digits starting at `code[i]` as a number.
fn get_number(code: &str, i: usize) -> (r: Result<(Token, usize), LispError>)
    requires
        i < code@.len(),
        is_digit_char(code@[i as int]),
    ensures
        match r {
            Result::Ok((t, j)) => spec_next_token(code@, i as int) == Result::<(TokenModel, int), ErrorModel>::Ok(
                (t@, j as int),
            ) && i < j <= code@.len(),
            Result::Err(e) => spec_next_token(code@, i as int) == Result::<(TokenModel, int), ErrorModel>::Err(
                e@,
            ),
        },
{
    let s = Ghost(code@);
    let n = code.unicode_len();
    let mut j = i;
    let mut acc: u64 = 0;
    while j < n && is_digit_exec(code.get_char(j))
        invariant
            i <= j <= n,
            n == s@.len(),
            s@ == code@,
            is_digit_char(s@[i as int]),
            num_end(s@, i as int) == num_end(s@, j as int),
            acc as nat == num_val(s@, i as int, j as int),
        decreases n - j,
    {
        let d = (code.get_char(j) as u32 - 48) as u64;
        let next = match acc.checked_mul(10) {
            Option::Some(m) => m.checked_add(d),
            Option::None => Option::None,
        };
        match next {
            Option::Some(v) => {
                acc = v;
            },
            Option::None => {
                proof {
                    lemma_num_end_bounds(s@, j + 1);
                    assert(num_end(s@, j as int) == num_end(s@, j + 1));
                    lemma_num_val_mono(s@, i as int, j + 1, num_end(s@, i as int));
                }
                return Result::Err(LispError::NumberTooLarge);
            },
        }
        j = j + 1;
    }
    proof {
        assert(num_end(s@, j as int) == j as int);
        assert(j > i) by {
            if j == i {
                assert(is_digit_char(s@[i as int]));
            }
        }
    }
    Result::Ok((Token::Number(acc), j))
}

/// Reads the maximal symbol run starting at `code[i]`.
fn get_symbol(code: &str, i: usize) -> (r: Result<(Token, usize), LispError>)
    requires
        i < code@.len(),
        !is_ws(code@[i as int]),
        !is_sym_break(code@[i as int]),
        !is_digit_char(code@[i as int]),
        code@[i as int] != '(' && code@[i as int] != ')',
    ensures
        match r {
            Result::Ok((t, j)) => spec_next_token(code@, i as int) == Result::<(TokenModel, int), ErrorModel>::Ok(
                (t@, j as int),
            ) && i < j <= code@.len(),
            Result::Err(e) => false,
        },
{
    let s = Ghost(code@);
    let n = code.unicode_len();
    let mut j = i;
    while j < n && !is_sym_break_exec(code.get_char(j))
        invariant
            i <= j <= n,
            n == s@.len(),
            s@ == code@,
            !is_sym_break(s@[i as int]),
            sym_end(s@, i as int) == sym_end(s@, j as int),
        decreases n - j,
    {
        j = j + 1;
    }
    proof {
        assert(sym_end(s@, j as int) == j as int);
        assert(j > i) by {
            if j == i {
                assert(!is_sym_break(s@[i as int]));
            }
        }
    }
    let text = code.substring_char(i, j);
    Result::Ok((Token::Symbol(text.to_owned()), j))
}

/// Classifies and reads the token starting at `code[i]`, a position that
/// holds no whitespace. At the end of the input the token is `Eof`.
fn get_token(code: &str, i: usize) -> (r: Result<(Token, usize), LispError>)
    requires
        i <= code@.len(),
        i < code@.len() ==> !is_ws(code@[i as int]),
    ensures
        match r {
            Result::Ok((t, j)) => spec_next_token(code@, i as int) == Result::<(TokenModel, int), ErrorModel>::Ok(
                (t@, j as int),
            ) && i <= j <= code@.len() && (!(t is Eof) ==> i < j) && (t is Eof ==> j == i),
            Result::Err(e) => spec_next_token(code@, i as int) == Result::<(TokenModel, int), ErrorModel>::Err(
                e@,
            ),
        },
{
    let n = code.unicode_len();
    if i >= n {
        return Result::Ok((Token::Eof, i));
    }
    let c = code.get_char(i);
    if c == '(' {
        Result::Ok((Token::LOpen, i + 1))
    } else if c == ')' {
        Result::Ok((Token::LClose, i + 1))
    } else if c == '"' || c == '\'' {
        get_string(code, i)
    } else if is_digit_exec(c) {
        get_number(code, i)
    } else {
        get_symbol(code, i)
    }
}

/// Tokenizes a whole source line.
pub fn tokenize(code: &str) -> (r: Result<Vec<Token>, LispError>)
    ensures
        match r {
            Result::Ok(ts) => spec_tokenize(code@, 0) == Result::<Seq<TokenModel>, ErrorModel>::Ok(
                ts.deep_view(),
            ),
            Result::Err(e) => spec_tokenize(code@, 0) == Result::<Seq<TokenModel>, ErrorModel>::Err(
                e@,
            ),
        },
{
    let s = Ghost(code@);
    let n = code.unicode_len();
    let mut tokens: Vec<Token> = Vec::new();
    let mut i: usize = 0;
    loop
        invariant
            i <= n,
            n == s@.len(),
            s@ == code@,
            match spec_tokenize(s@, i as int) {
                Result::Ok(rest) => spec_tokenize(s@, 0) == Result::<Seq<TokenModel>, ErrorModel>::Ok(
                    tokens.deep_view() + rest,
                ),
                Result::Err(e) => spec_tokenize(s@, 0) == Result::<Seq<TokenModel>, ErrorModel>::Err(
                    e,
                ),
            },
        decreases n - i,
    {
        let k = skip_whitespace(code, i);
        match get_token(code, k) {
            Result::Err(e) => {
                return Result::Err(e);
            },
            Result::Ok((t, j)) => {
                if let Token::Eof = t {
                    proof {
                        assert(spec_tokenize(s@, i as int) == Result::<
                            Seq<TokenModel>,
                            ErrorModel,
                        >::Ok(Seq::<TokenModel>::empty()));
                        assert(tokens.deep_view() + Seq::<TokenModel>::empty()
                            =~= tokens.deep_view());
                    }
                    return Result::Ok(tokens);
                }
                proof {
                    let ghost tv = t@;
                    assert(match spec_tokenize(s@, j as int) {
                        Result::Ok(ts) => spec_tokenize(s@, i as int) == Result::<
                            Seq<TokenModel>,
                            ErrorModel,
                        >::Ok(seq![tv] + ts),
                        Result::Err(e) => spec_tokenize(s@, i as int) == Result::<
                            Seq<TokenModel>,
                            ErrorModel,
                        >::Err(e),
                    });
                    if let Result::Ok(ts) = spec_tokenize(s@, j as int) {
                        assert((tokens.deep_view().push(tv)) + ts =~= tokens.deep_view() + (
                        seq![tv] + ts));
                    }
                }
                let ghost old_tokens = tokens.deep_view();
                tokens.push(t);
                proof {
                    assert(tokens.deep_view() =~= old_tokens.push(t@));
                }
                i = j;
            },
        }
    }
}

} // verus!
