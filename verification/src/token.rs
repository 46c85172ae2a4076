//! The token model: the smallest named units of source text, together with
//! the mathematical view of each token used by the scanner and parser
//! contracts.

use vstd::prelude::*;

verus! {

/// The closed set of symbol classes a token can belong to.
#[derive(Clone, Copy, PartialEq, Eq, Structural, Debug)]
#[allow(non_camel_case_types)]
pub enum TokenType {
    // single character tokens
    LEFT_PAREN,
    RIGHT_PAREN,
    LEFT_BRACE,
    RIGHT_BRACE,
    COMMA,
    DOT,
    MINUS,
    PLUS,
    SEMICOLON,
    SLASH,
    STAR,
    // one or two character tokens
    BANG,
    BANG_EQUAL,
    EQUAL,
    EQUAL_EQUAL,
    GREATER,
    GREATER_EQUAL,
    LESS,
    LESS_EQUAL,
    // literals
    IDENTIFIER,
    STRING,
    NUMBER,
    // keywords
    AND,
    CLASS,
    ELSE,
    FALSE,
    FUN,
    FOR,
    IF,
    NIL,
    OR,
    PRINT,
    RETURN,
    SUPER,
    THIS,
    TRUE,
    VAR,
    WHILE,
    EOF,
}

/// True of the ten decimal digit characters.
pub open spec fn is_digit_char(c: char) -> bool {
    '0' <= c && c <= '9'
}

/// True of the characters that may start an identifier.
pub open spec fn is_alpha_char(c: char) -> bool {
    ('a' <= c && c <= 'z') || ('A' <= c && c <= 'Z') || c == '_'
}

/// True of the characters that may continue an identifier.
pub open spec fn is_alnum_char(c: char) -> bool {
    is_alpha_char(c) || is_digit_char(c)
}

/// The mathematical value of a numeric literal: an exact decimal, kept as its
/// canonical digit strings. `int_digits` never has a leading zero unless it
/// is exactly "0"; `frac_digits` never has a trailing zero and is empty for
/// integers. Two numeric literals denote the same number exactly when their
/// models are equal.
pub ghost struct NumModel {
    pub int_digits: Seq<char>,
    pub frac_digits: Seq<char>,
}

impl NumModel {
    /// Canonical form: digits only, no redundant leading or trailing zeros.
    pub open spec fn wf(self) -> bool {
        &&& self.int_digits.len() >= 1
        &&& forall|i: int| 0 <= i < self.int_digits.len() ==> is_digit_char(#[trigger] self.int_digits[i])
        &&& (self.int_digits.len() > 1 ==> self.int_digits[0] != '0')
        &&& forall|i: int| 0 <= i < self.frac_digits.len() ==> is_digit_char(#[trigger] self.frac_digits[i])
        &&& (self.frac_digits.len() > 0 ==> self.frac_digits[self.frac_digits.len() - 1] != '0')
    }

    /// The textual form of the number: the integer digits, then a dot and the
    /// fraction digits when there is a fraction.
    pub open spec fn text(self) -> Seq<char> {
        if self.frac_digits.len() == 0 {
            self.int_digits
        } else {
            self.int_digits + seq!['.'] + self.frac_digits
        }
    }
}

/// The value of a numeric literal, held as its canonical decimal digits.
#[derive(Debug)]
pub struct NumLit {
    pub int_digits: String,
    pub frac_digits: String,
}

impl View for NumLit {
    type V = NumModel;

    open spec fn view(&self) -> NumModel {
        NumModel { int_digits: self.int_digits@, frac_digits: self.frac_digits@ }
    }
}

impl NumLit {
    /// The canonical literal denoted by the given digit runs, or `None` when
    /// the runs are not plain decimal digits or the integer part is empty.
    pub fn new(int_digits: &str, frac_digits: &str) -> (r: Option<NumLit>)
        ensures
            match r {
                Some(n) => {
                    &&& n@ == num_model_of(int_digits@, frac_digits@)
                    &&& n@.wf()
                },
                None => !{
                    &&& int_digits@.len() >= 1
                    &&& forall|i: int|
                        0 <= i < int_digits@.len() ==> is_digit_char(#[trigger] int_digits@[i])
                    &&& forall|i: int|
                        0 <= i < frac_digits@.len() ==> is_digit_char(#[trigger] frac_digits@[i])
                },
            },
    {
        if int_digits.unicode_len() >= 1 && all_digit_chars(int_digits) && all_digit_chars(
            frac_digits,
        ) {
            Some(NumLit::from_digits(int_digits, frac_digits))
        } else {
            None
        }
    }

    /// As `new`, for digit runs already known to be well formed.
    pub(crate) fn from_digits(int_digits: &str, frac_digits: &str) -> (r: NumLit)
        requires
            int_digits@.len() >= 1,
            forall|i: int| 0 <= i < int_digits@.len() ==> is_digit_char(#[trigger] int_digits@[i]),
            forall|i: int|
                0 <= i < frac_digits@.len() ==> is_digit_char(#[trigger] frac_digits@[i]),
        ensures
            r@ == num_model_of(int_digits@, frac_digits@),
            r@.wf(),
    {
        let i = strip_leading_zeros_exec(int_digits);
        let f = strip_trailing_zeros_exec(frac_digits);
        proof {
            lemma_strip_leading_zeros(int_digits@);
            lemma_strip_trailing_zeros(frac_digits@);
        }
        NumLit { int_digits: i, frac_digits: f }
    }

    /// The textual form of the number.
    pub fn render(&self) -> (r: String)
        ensures
            r@ == self@.text(),
    {
        if self.frac_digits.as_str().unicode_len() == 0 {
            self.int_digits.clone()
        } else {
            proof {
                reveal_strlit(".");
            }
            let mut r = self.int_digits.clone();
            r.append(".");
            r.append(self.frac_digits.as_str());
            r
        }
    }
}

impl Clone for NumLit {
    fn clone(&self) -> (r: NumLit)
        ensures
            r@ == self@,
    {
        NumLit { int_digits: self.int_digits.clone(), frac_digits: self.frac_digits.clone() }
    }
}

/// Whether every character of `s` is a decimal digit.
fn all_digit_chars(s: &str) -> (r: bool)
    ensures
        r == (forall|i: int| 0 <= i < s@.len() ==> is_digit_char(#[trigger] s@[i])),
{
    let n = s.unicode_len();
    let mut i: usize = 0;
    let mut ok = true;
    while i < n
        invariant
            n == s@.len(),
            i <= n,
            ok == (forall|j: int| 0 <= j < i ==> is_digit_char(#[trigger] s@[j])),
        decreases n - i,
    {
        let c = s.get_char(i);
        if !('0' <= c && c <= '9') {
            ok = false;
        }
        i = i + 1;
    }
    ok
}

/// Removes redundant leading zeros from a digit run, keeping one character.
fn strip_leading_zeros_exec(s: &str) -> (r: String)
    ensures
        r@ == strip_leading_zeros(s@),
{
    let n = s.unicode_len();
    let mut i: usize = 0;
    proof {
        assert(s@.subrange(0, n as int) =~= s@);
    }
    while i < n && i + 1 < n && s.get_char(i) == '0'
        invariant
            n == s@.len(),
            i <= n,
            strip_leading_zeros(s@) == strip_leading_zeros(s@.subrange(i as int, n as int)),
        decreases n - i,
    {
        proof {
            assert(s@.subrange(i as int, n as int).subrange(1, (n - i) as int) =~= s@.subrange(
                i as int + 1,
                n as int,
            ));
        }
        i = i + 1;
    }
    let r = String::from_str(s.substring_char(i, n));
    proof {
        let t = s@.subrange(i as int, n as int);
        assert(strip_leading_zeros(t) == t);
    }
    r
}

/// Removes every trailing zero from a digit run, possibly leaving nothing.
fn strip_trailing_zeros_exec(s: &str) -> (r: String)
    ensures
        r@ == strip_trailing_zeros(s@),
{
    let n = s.unicode_len();
    let mut j: usize = n;
    proof {
        assert(s@.subrange(0, n as int) =~= s@);
    }
    while j > 0 && s.get_char(j - 1) == '0'
        invariant
            n == s@.len(),
            j <= n,
            strip_trailing_zeros(s@) == strip_trailing_zeros(s@.subrange(0, j as int)),
        decreases j,
    {
        proof {
            assert(s@.subrange(0, j as int).subrange(0, j as int - 1) =~= s@.subrange(
                0,
                j as int - 1,
            ));
        }
        j = j - 1;
    }
    let r = String::from_str(s.substring_char(0, j));
    proof {
        assert(strip_trailing_zeros(s@.subrange(0, j as int)) == s@.subrange(0, j as int));
    }
    r
}

/// The tagged value a token may carry: absent, a text value, or a numeric
/// value. Only `STRING` and `NUMBER` tokens carry a present literal.
#[derive(Debug)]
pub enum Literal {
    Absent,
    Text(String),
    Num(NumLit),
}

/// The mathematical view of a `Literal`.
pub ghost enum LiteralModel {
    Absent,
    Text(Seq<char>),
    Num(NumModel),
}

impl View for Literal {
    type V = LiteralModel;

    open spec fn view(&self) -> LiteralModel {
        match self {
            Literal::Absent => LiteralModel::Absent,
            Literal::Text(s) => LiteralModel::Text(s@),
            Literal::Num(n) => LiteralModel::Num(n@),
        }
    }
}

impl Clone for Literal {
    fn clone(&self) -> (r: Literal)
        ensures
            r@ == self@,
    {
        match self {
            Literal::Absent => Literal::Absent,
            Literal::Text(s) => Literal::Text(s.clone()),
            Literal::Num(n) => Literal::Num(n.clone()),
        }
    }
}

/// `s` with redundant leading zeros removed; at least one character is kept.
pub open spec fn strip_leading_zeros(s: Seq<char>) -> Seq<char>
    decreases s.len(),
{
    if s.len() <= 1 {
        s
    } else if s[0] == '0' {
        strip_leading_zeros(s.subrange(1, s.len() as int))
    } else {
        s
    }
}

/// `s` with all trailing zeros removed, possibly down to the empty sequence.
pub open spec fn strip_trailing_zeros(s: Seq<char>) -> Seq<char>
    decreases s.len(),
{
    if s.len() == 0 {
        s
    } else if s[s.len() - 1] == '0' {
        strip_trailing_zeros(s.subrange(0, s.len() - 1))
    } else {
        s
    }
}

/// The numeric value denoted by an integer digit run and a (possibly empty)
/// fraction digit run: both runs in canonical form.
pub open spec fn num_model_of(int_digits: Seq<char>, frac_digits: Seq<char>) -> NumModel {
    NumModel {
        int_digits: strip_leading_zeros(int_digits),
        frac_digits: strip_trailing_zeros(frac_digits),
    }
}

pub proof fn lemma_strip_leading_zeros(s: Seq<char>)
    requires
        s.len() >= 1,
        forall|i: int| 0 <= i < s.len() ==> is_digit_char(#[trigger] s[i]),
    ensures
        strip_leading_zeros(s).len() >= 1,
        forall|i: int|
            0 <= i < strip_leading_zeros(s).len() ==> is_digit_char(
                #[trigger] strip_leading_zeros(s)[i],
            ),
        strip_leading_zeros(s).len() > 1 ==> strip_leading_zeros(s)[0] != '0',
    decreases s.len(),
{
    if s.len() > 1 && s[0] == '0' {
        let t = s.subrange(1, s.len() as int);
        assert(forall|i: int| 0 <= i < t.len() ==> is_digit_char(#[trigger] t[i]));
        lemma_strip_leading_zeros(t);
    }
}

pub proof fn lemma_strip_trailing_zeros(s: Seq<char>)
    requires
        forall|i: int| 0 <= i < s.len() ==> is_digit_char(#[trigger] s[i]),
    ensures
        forall|i: int|
            0 <= i < strip_trailing_zeros(s).len() ==> is_digit_char(
                #[trigger] strip_trailing_zeros(s)[i],
            ),
        strip_trailing_zeros(s).len() > 0 ==> strip_trailing_zeros(s)[strip_trailing_zeros(
            s,
        ).len() - 1] != '0',
    decreases s.len(),
{
    if s.len() > 0 && s[s.len() - 1] == '0' {
        let t = s.subrange(0, s.len() - 1);
        assert(forall|i: int| 0 <= i < t.len() ==> is_digit_char(#[trigger] t[i]));
        lemma_strip_trailing_zeros(t);
    }
}

/// The mathematical view of a `Token`.
pub ghost struct TokenModel {
    pub token_type: TokenType,
    pub lexeme: Seq<char>,
    pub literal: LiteralModel,
    pub line: nat,
}

/// One lexical unit: its symbol class, the exact source text it came from,
/// an optional literal value, and the 1-based source line it started on.
#[derive(Debug)]
pub struct Token {
    pub token_type: TokenType,
    pub lexeme: String,
    pub literal: Literal,
    pub line: usize,
}

impl View for Token {
    type V = TokenModel;

    open spec fn view(&self) -> TokenModel {
        TokenModel {
            token_type: self.token_type,
            lexeme: self.lexeme@,
            literal: self.literal@,
            line: self.line as nat,
        }
    }
}

impl Clone for Token {
    fn clone(&self) -> (r: Token)
        ensures
            r@ == self@,
    {
        Token {
            token_type: self.token_type,
            lexeme: self.lexeme.clone(),
            literal: self.literal.clone(),
            line: self.line,
        }
    }
}

/// The views of a whole token sequence.
pub open spec fn token_models(tokens: Seq<Token>) -> Seq<TokenModel> {
    tokens.map_values(|t: Token| t@)
}

} // verus!
