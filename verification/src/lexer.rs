//! The lexical scanner: a single left-to-right pass over the source text that
//! produces an ordered token sequence and a sequence of diagnostics. The
//! whole pass is specified by the recursive function `scan_rest`, built from
//! the single-lexeme step `scan_step`; the executable `Scanner` is proved to
//! compute exactly that.

pub use crate::token::Literal;
pub use crate::token::Token;
pub use crate::token::TokenType;

use crate::token::LiteralModel;
use crate::token::NumLit;
use crate::token::TokenModel;
use crate::token::is_alnum_char;
use crate::token::is_alpha_char;
use crate::token::is_digit_char;
use crate::token::num_model_of;
use crate::token::token_models;
use vstd::prelude::*;

verus! {

/// What a lexical error is about.
#[derive(Clone, Copy, PartialEq, Eq, Structural, Debug)]
pub enum DiagKind {
    /// A character that no lexeme can start with.
    UnexpectedChar(char),
    /// End of input inside a string literal.
    UnterminatedString,
    /// End of input inside a block comment.
    UnterminatedBlockComment,
}

/// The mathematical view of a `Diagnostic`.
pub ghost struct DiagModel {
    pub line: nat,
    pub kind: DiagKind,
}

/// One lexical error: the 1-based line it is reported at and its kind.
pub struct Diagnostic {
    pub line: usize,
    pub kind: DiagKind,
}

impl View for Diagnostic {
    type V = DiagModel;

    open spec fn view(&self) -> DiagModel {
        DiagModel { line: self.line as nat, kind: self.kind }
    }
}

impl Clone for Diagnostic {
    fn clone(&self) -> (r: Diagnostic)
        ensures
            r@ == self@,
    {
        Diagnostic { line: self.line, kind: self.kind }
    }
}

/// The views of a whole diagnostic sequence.
pub open spec fn diag_models(diags: Seq<Diagnostic>) -> Seq<DiagModel> {
    diags.map_values(|d: Diagnostic| d@)
}

/// The human-readable message of a diagnostic kind.
pub open spec fn diag_message(kind: DiagKind) -> Seq<char> {
    match kind {
        DiagKind::UnexpectedChar(c) => "Unexpected character '"@ + seq![c] + "'"@,
        DiagKind::UnterminatedString => "Unterminated string."@,
        DiagKind::UnterminatedBlockComment => "Unfinished block comment"@,
    }
}

/// Relies on `alloc::string::String::from(char)`: the string holding exactly
/// that one character.
#[verifier::external_body]
fn char_to_string(c: char) -> (r: String)
    ensures
        r@ == seq![c],
{
    String::from(c)
}

impl Diagnostic {
    /// The human-readable message of this diagnostic.
    pub fn message(&self) -> (r: String)
        ensures
            r@ == diag_message(self.kind),
    {
        match self.kind {
            DiagKind::UnexpectedChar(c) => {
                let mut r = String::from_str("Unexpected character '");
                r.append(char_to_string(c).as_str());
                r.append("'");
                r
            },
            DiagKind::UnterminatedString => String::from_str("Unterminated string."),
            DiagKind::UnterminatedBlockComment => String::from_str("Unfinished block comment"),
        }
    }
}

/// The first position at or after `pos` whose character cannot continue an
/// identifier, or the end of the input.
pub open spec fn ident_end(src: Seq<char>, pos: int) -> int
    decreases src.len() - pos,
{
    if pos < 0 || pos >= src.len() || !is_alnum_char(src[pos]) {
        pos
    } else {
        ident_end(src, pos + 1)
    }
}

/// The first position at or after `pos` whose character is not a digit, or
/// the end of the input.
pub open spec fn digits_end(src: Seq<char>, pos: int) -> int
    decreases src.len() - pos,
{
    if pos < 0 || pos >= src.len() || !is_digit_char(src[pos]) {
        pos
    } else {
        digits_end(src, pos + 1)
    }
}

/// The position of the first `"` at or after `pos`, or the input length when
/// there is none.
pub open spec fn string_close(src: Seq<char>, pos: int) -> int
    decreases src.len() - pos,
{
    if pos < 0 || pos >= src.len() {
        src.len() as int
    } else if src[pos] == '"' {
        pos
    } else {
        string_close(src, pos + 1)
    }
}

/// The position of the first newline at or after `pos`, or the input length
/// when there is none.
pub open spec fn line_comment_end(src: Seq<char>, pos: int) -> int
    decreases src.len() - pos,
{
    if pos < 0 || pos >= src.len() {
        src.len() as int
    } else if src[pos] == '\n' {
        pos
    } else {
        line_comment_end(src, pos + 1)
    }
}

/// The position of the `*` of the first `*/` at or after `pos`, or the input
/// length when the comment never closes.
pub open spec fn block_close(src: Seq<char>, pos: int) -> int
    decreases src.len() - pos,
{
    if pos < 0 || pos >= src.len() {
        src.len() as int
    } else if src[pos] == '*' && pos + 1 < src.len() && src[pos + 1] == '/' {
        pos
    } else {
        block_close(src, pos + 1)
    }
}

/// The number of newline characters in `src[a..b)`.
pub open spec fn newlines_in(src: Seq<char>, a: int, b: int) -> int
    decreases b - a,
{
    if a >= b || b < 0 || b > src.len() || a < 0 {
        0
    } else {
        newlines_in(src, a, b - 1) + if src[b - 1] == '\n' {
            1int
        } else {
            0int
        }
    }
}

/// The keyword kind for an identifier text, or `IDENTIFIER` when the text is
/// not a reserved word.
pub open spec fn keyword_kind(text: Seq<char>) -> TokenType {
    if text == "and"@ {
        TokenType::AND
    } else if text == "class"@ {
        TokenType::CLASS
    } else if text == "else"@ {
        TokenType::ELSE
    } else if text == "false"@ {
        TokenType::FALSE
    } else if text == "for"@ {
        TokenType::FOR
    } else if text == "fun"@ {
        TokenType::FUN
    } else if text == "if"@ {
        TokenType::IF
    } else if text == "nil"@ {
        TokenType::NIL
    } else if text == "or"@ {
        TokenType::OR
    } else if text == "print"@ {
        TokenType::PRINT
    } else if text == "return"@ {
        TokenType::RETURN
    } else if text == "super"@ {
        TokenType::SUPER
    } else if text == "this"@ {
        TokenType::THIS
    } else if text == "true"@ {
        TokenType::TRUE
    } else if text == "var"@ {
        TokenType::VAR
    } else if text == "while"@ {
        TokenType::WHILE
    } else {
        TokenType::IDENTIFIER
    }
}

/// What one classification step does: where it leaves the cursor and the
/// line counter, and which token or diagnostic it emits, if any.
pub ghost struct ScanStep {
    pub next: int,
    pub line_next: int,
    pub token: Option<TokenModel>,
    pub diag: Option<DiagModel>,
}

/// A step that emits one token whose lexeme is `src[pos..end)` and that
/// carries no literal value.
pub open spec fn plain_token_step(
    src: Seq<char>,
    pos: int,
    end: int,
    line: int,
    kind: TokenType,
) -> ScanStep {
    ScanStep {
        next: end,
        line_next: line,
        token: Some(
            TokenModel {
                token_type: kind,
                lexeme: src.subrange(pos, end),
                literal: LiteralModel::Absent,
                line: line as nat,
            },
        ),
        diag: None,
    }
}

/// A step for `!`, `=`, `<` or `>`: greedily take the two-character form when
/// an `=` follows, the one-character form otherwise.
pub open spec fn one_or_two_step(
    src: Seq<char>,
    pos: int,
    line: int,
    single: TokenType,
    compound: TokenType,
) -> ScanStep {
    if pos + 1 < src.len() && src[pos + 1] == '=' {
        plain_token_step(src, pos, pos + 2, line, compound)
    } else {
        plain_token_step(src, pos, pos + 1, line, single)
    }
}

/// A step that emits nothing and moves to `next`.
pub open spec fn silent_step(next: int, line_next: int) -> ScanStep {
    ScanStep { next: next, line_next: line_next, token: None, diag: None }
}

/// A step that emits one diagnostic.
pub open spec fn diag_step(next: int, line_next: int, line: int, kind: DiagKind) -> ScanStep {
    ScanStep {
        next: next,
        line_next: line_next,
        token: None,
        diag: Some(DiagModel { line: line as nat, kind: kind }),
    }
}

/// The classification of the single lexeme starting at `pos` (which must be
/// inside the input): how the next lexeme of the source text is turned into
/// a token, a diagnostic, or nothing at all.
pub open spec fn scan_step(src: Seq<char>, pos: int, line: int) -> ScanStep {
    let c = src[pos];
    if c == '(' {
        plain_token_step(src, pos, pos + 1, line, TokenType::LEFT_PAREN)
    } else if c == ')' {
        plain_token_step(src, pos, pos + 1, line, TokenType::RIGHT_PAREN)
    } else if c == '{' {
        plain_token_step(src, pos, pos + 1, line, TokenType::LEFT_BRACE)
    } else if c == '}' {
        plain_token_step(src, pos, pos + 1, line, TokenType::RIGHT_BRACE)
    } else if c == ',' {
        plain_token_step(src, pos, pos + 1, line, TokenType::COMMA)
    } else if c == '.' {
        plain_token_step(src, pos, pos + 1, line, TokenType::DOT)
    } else if c == '-' {
        plain_token_step(src, pos, pos + 1, line, TokenType::MINUS)
    } else if c == '+' {
        plain_token_step(src, pos, pos + 1, line, TokenType::PLUS)
    } else if c == ';' {
        plain_token_step(src, pos, pos + 1, line, TokenType::SEMICOLON)
    } else if c == '*' {
        plain_token_step(src, pos, pos + 1, line, TokenType::STAR)
    } else if c == '!' {
        one_or_two_step(src, pos, line, TokenType::BANG, TokenType::BANG_EQUAL)
    } else if c == '=' {
        one_or_two_step(src, pos, line, TokenType::EQUAL, TokenType::EQUAL_EQUAL)
    } else if c == '<' {
        one_or_two_step(src, pos, line, TokenType::LESS, TokenType::LESS_EQUAL)
    } else if c == '>' {
        one_or_two_step(src, pos, line, TokenType::GREATER, TokenType::GREATER_EQUAL)
    } else if c == '/' {
        if pos + 1 < src.len() && src[pos + 1] == '/' {
            // a line comment runs to the newline, which is left in place
            silent_step(line_comment_end(src, pos + 2), line)
        } else if pos + 1 < src.len() && src[pos + 1] == '*' {
            let close = block_close(src, pos + 2);
            if close == src.len() {
                diag_step(
                    src.len() as int,
                    line + newlines_in(src, pos + 2, src.len() as int),
                    line,
                    DiagKind::UnterminatedBlockComment,
                )
            } else {
                silent_step(close + 2, line + newlines_in(src, pos + 2, close))
            }
        } else {
            plain_token_step(src, pos, pos + 1, line, TokenType::SLASH)
        }
    } else if c == ' ' || c == '\r' || c == '\t' {
        silent_step(pos + 1, line)
    } else if c == '\n' {
        silent_step(pos + 1, line + 1)
    } else if c == '"' {
        let close = string_close(src, pos + 1);
        if close == src.len() {
            diag_step(
                src.len() as int,
                line + newlines_in(src, pos + 1, src.len() as int),
                line,
                DiagKind::UnterminatedString,
            )
        } else {
            ScanStep {
                next: close + 1,
                line_next: line + newlines_in(src, pos + 1, close),
                token: Some(
                    TokenModel {
                        token_type: TokenType::STRING,
                        lexeme: src.subrange(pos, close + 1),
                        literal: LiteralModel::Text(src.subrange(pos + 1, close)),
                        line: line as nat,
                    },
                ),
                diag: None,
            }
        }
    } else if is_digit_char(c) {
        let int_end = digits_end(src, pos + 1);
        let end = if int_end < src.len() && src[int_end] == '.' && int_end + 1 < src.len()
            && is_digit_char(src[int_end + 1]) {
            digits_end(src, int_end + 1)
        } else {
            int_end
        };
        let frac = if end == int_end {
            Seq::<char>::empty()
        } else {
            src.subrange(int_end + 1, end)
        };
        ScanStep {
            next: end,
            line_next: line,
            token: Some(
                TokenModel {
                    token_type: TokenType::NUMBER,
                    lexeme: src.subrange(pos, end),
                    literal: LiteralModel::Num(num_model_of(src.subrange(pos, int_end), frac)),
                    line: line as nat,
                },
            ),
            diag: None,
        }
    } else if is_alpha_char(c) {
        let end = ident_end(src, pos + 1);
        plain_token_step(src, pos, end, line, keyword_kind(src.subrange(pos, end)))
    } else {
        diag_step(pos + 1, line, line, DiagKind::UnexpectedChar(c))
    }
}

/// Everything the scan emits from `pos` to the end of the input, and the
/// line counter when it gets there. The `EOF` token is not included here;
/// `scan_result` appends it.
pub ghost struct ScanOut {
    pub tokens: Seq<TokenModel>,
    pub diags: Seq<DiagModel>,
    pub line_end: int,
}

/// An optional token as a sequence of zero or one tokens.
pub open spec fn opt_token(t: Option<TokenModel>) -> Seq<TokenModel> {
    match t {
        Some(t) => seq![t],
        None => Seq::empty(),
    }
}

/// An optional diagnostic as a sequence of zero or one diagnostics.
pub open spec fn opt_diag(d: Option<DiagModel>) -> Seq<DiagModel> {
    match d {
        Some(d) => seq![d],
        None => Seq::empty(),
    }
}

pub proof fn lemma_scan_step_progress(src: Seq<char>, pos: int, line: int)
    requires
        0 <= pos < src.len(),
    ensures
        pos < scan_step(src, pos, line).next <= src.len(),
{
    let c = src[pos];
    if c == '/' {
        if pos + 1 < src.len() && src[pos + 1] == '/' {
            lemma_line_comment_end(src, pos + 2);
        } else if pos + 1 < src.len() && src[pos + 1] == '*' {
            lemma_block_close(src, pos + 2);
        }
    } else if c == '"' {
        lemma_string_close(src, pos + 1);
    } else if is_digit_char(c) {
        lemma_digits_end(src, pos + 1);
        let int_end = digits_end(src, pos + 1);
        if int_end < src.len() && src[int_end] == '.' && int_end + 1 < src.len() && is_digit_char(
            src[int_end + 1],
        ) {
            lemma_digits_end(src, int_end + 1);
        }
    } else if is_alpha_char(c) {
        lemma_ident_end(src, pos + 1);
    }
}

pub proof fn lemma_ident_end(src: Seq<char>, pos: int)
    requires
        0 <= pos <= src.len(),
    ensures
        pos <= ident_end(src, pos) <= src.len(),
        forall|i: int| pos <= i < ident_end(src, pos) ==> is_alnum_char(#[trigger] src[i]),
        ident_end(src, pos) < src.len() ==> !is_alnum_char(src[ident_end(src, pos)]),
    decreases src.len() - pos,
{
    if pos < src.len() && is_alnum_char(src[pos]) {
        lemma_ident_end(src, pos + 1);
    }
}

pub proof fn lemma_digits_end(src: Seq<char>, pos: int)
    requires
        0 <= pos <= src.len(),
    ensures
        pos <= digits_end(src, pos) <= src.len(),
        forall|i: int| pos <= i < digits_end(src, pos) ==> is_digit_char(#[trigger] src[i]),
        digits_end(src, pos) < src.len() ==> !is_digit_char(src[digits_end(src, pos)]),
    decreases src.len() - pos,
{
    if pos < src.len() && is_digit_char(src[pos]) {
        lemma_digits_end(src, pos + 1);
    }
}

pub proof fn lemma_string_close(src: Seq<char>, pos: int)
    requires
        0 <= pos <= src.len(),
    ensures
        pos <= string_close(src, pos) <= src.len(),
        forall|i: int| pos <= i < string_close(src, pos) ==> #[trigger] src[i] != '"',
        string_close(src, pos) < src.len() ==> src[string_close(src, pos)] == '"',
    decreases src.len() - pos,
{
    if pos < src.len() && src[pos] != '"' {
        lemma_string_close(src, pos + 1);
    }
}

pub proof fn lemma_line_comment_end(src: Seq<char>, pos: int)
    requires
        0 <= pos <= src.len(),
    ensures
        pos <= line_comment_end(src, pos) <= src.len(),
        forall|i: int| pos <= i < line_comment_end(src, pos) ==> #[trigger] src[i] != '\n',
        line_comment_end(src, pos) < src.len() ==> src[line_comment_end(src, pos)] == '\n',
    decreases src.len() - pos,
{
    if pos < src.len() && src[pos] != '\n' {
        lemma_line_comment_end(src, pos + 1);
    }
}

pub proof fn lemma_block_close(src: Seq<char>, pos: int)
    requires
        0 <= pos <= src.len(),
    ensures
        pos <= block_close(src, pos) <= src.len(),
        block_close(src, pos) < src.len() ==> block_close(src, pos) + 1 < src.len()
            && src[block_close(src, pos)] == '*' && src[block_close(src, pos) + 1] == '/',
        forall|i: int|
            pos <= i < block_close(src, pos) ==> !(#[trigger] src[i] == '*' && i + 1 < src.len()
                && src[i + 1] == '/'),
    decreases src.len() - pos,
{
    if pos < src.len() && !(src[pos] == '*' && pos + 1 < src.len() && src[pos + 1] == '/') {
        lemma_block_close(src, pos + 1);
    }
}

pub proof fn lemma_newlines_in_bounds(src: Seq<char>, a: int, b: int)
    ensures
        0 <= newlines_in(src, a, b),
        newlines_in(src, a, b) <= if b - a >= 0 {
            b - a
        } else {
            0
        },
    decreases b - a,
{
    if !(a >= b || b < 0 || b > src.len() || a < 0) {
        lemma_newlines_in_bounds(src, a, b - 1);
    }
}

/// Everything the scan emits from `pos` on, by repeated classification steps.
pub open spec fn scan_rest(src: Seq<char>, pos: int, line: int) -> ScanOut
    decreases src.len() - pos,
    when 0 <= pos
{
    if pos >= src.len() {
        ScanOut { tokens: Seq::empty(), diags: Seq::empty(), line_end: line }
    } else {
        let st = scan_step(src, pos, line);
        proof {
            lemma_scan_step_progress(src, pos, line);
        }
        let rest = scan_rest(src, st.next, st.line_next);
        ScanOut {
            tokens: opt_token(st.token) + rest.tokens,
            diags: opt_diag(st.diag) + rest.diags,
            line_end: rest.line_end,
        }
    }
}

/// The model of the `EOF` token: the `EOF` kind, an empty lexeme, no
/// literal.
pub open spec fn eof_model(line: int) -> TokenModel {
    TokenModel {
        token_type: TokenType::EOF,
        lexeme: Seq::empty(),
        literal: LiteralModel::Absent,
        line: line as nat,
    }
}

/// The complete result of scanning a source text: every token the text
/// denotes, one `EOF` token at the end, and every diagnostic, in order.
pub open spec fn scan_result(src: Seq<char>) -> ScanOut {
    let body = scan_rest(src, 0, 1);
    ScanOut {
        tokens: body.tokens.push(eof_model(body.line_end)),
        diags: body.diags,
        line_end: body.line_end,
    }
}

/// Two-character operators are greedily preferred: wherever `!`, `=`, `<` or
/// `>` is followed by `=`, the step emits the single compound token spanning
/// both characters, never the one-character token.
pub proof fn lemma_greedy_compound(src: Seq<char>, pos: int, line: int)
    requires
        0 <= pos,
        pos + 1 < src.len(),
        src[pos] == '!' || src[pos] == '=' || src[pos] == '<' || src[pos] == '>',
        src[pos + 1] == '=',
    ensures
        scan_step(src, pos, line).next == pos + 2,
        scan_step(src, pos, line).token is Some,
        scan_step(src, pos, line).token->0.token_type == (if src[pos] == '!' {
            TokenType::BANG_EQUAL
        } else if src[pos] == '=' {
            TokenType::EQUAL_EQUAL
        } else if src[pos] == '<' {
            TokenType::LESS_EQUAL
        } else {
            TokenType::GREATER_EQUAL
        }),
        scan_step(src, pos, line).token->0.lexeme == src.subrange(pos, pos + 2),
{
}

fn is_digit(c: char) -> (r: bool)
    ensures
        r == is_digit_char(c),
{
    '0' <= c && c <= '9'
}

fn is_alpha(c: char) -> (r: bool)
    ensures
        r == is_alpha_char(c),
{
    ('a' <= c && c <= 'z') || ('A' <= c && c <= 'Z') || c == '_'
}

fn is_alnum(c: char) -> (r: bool)
    ensures
        r == is_alnum_char(c),
{
    is_alpha(c) || is_digit(c)
}

/// The first position at or after `from` whose character cannot continue an
/// identifier.
fn find_ident_end(s: &str, from: usize) -> (r: usize)
    requires
        from <= s@.len(),
    ensures
        r == ident_end(s@, from as int),
        from <= r <= s@.len(),
{
    let n = s.unicode_len();
    let mut i = from;
    while i < n && is_alnum(s.get_char(i))
        invariant
            n == s@.len(),
            from <= i <= n,
            ident_end(s@, from as int) == ident_end(s@, i as int),
        decreases n - i,
    {
        i = i + 1;
    }
    i
}

/// The first position at or after `from` whose character is not a digit.
fn find_digits_end(s: &str, from: usize) -> (r: usize)
    requires
        from <= s@.len(),
    ensures
        r == digits_end(s@, from as int),
        from <= r <= s@.len(),
{
    let n = s.unicode_len();
    let mut i = from;
    while i < n && is_digit(s.get_char(i))
        invariant
            n == s@.len(),
            from <= i <= n,
            digits_end(s@, from as int) == digits_end(s@, i as int),
        decreases n - i,
    {
        i = i + 1;
    }
    i
}

/// The position of the first `"` at or after `from`, or the length when
/// there is none.
fn find_string_close(s: &str, from: usize) -> (r: usize)
    requires
        from <= s@.len(),
    ensures
        r == string_close(s@, from as int),
        from <= r <= s@.len(),
{
    let n = s.unicode_len();
    let mut i = from;
    while i < n && !(s.get_char(i) == '"')
        invariant
            n == s@.len(),
            from <= i <= n,
            string_close(s@, from as int) == string_close(s@, i as int),
        decreases n - i,
    {
        i = i + 1;
    }
    i
}

/// The position of the first newline at or after `from`, or the length when
/// there is none.
fn find_line_end(s: &str, from: usize) -> (r: usize)
    requires
        from <= s@.len(),
    ensures
        r == line_comment_end(s@, from as int),
        from <= r <= s@.len(),
{
    let n = s.unicode_len();
    let mut i = from;
    while i < n && !(s.get_char(i) == '\n')
        invariant
            n == s@.len(),
            from <= i <= n,
            line_comment_end(s@, from as int) == line_comment_end(s@, i as int),
        decreases n - i,
    {
        i = i + 1;
    }
    i
}

/// Whether position `i` starts the two characters `*/`.
fn at_block_close(s: &str, i: usize) -> (r: bool)
    requires
        i < s@.len(),
    ensures
        r == (s@[i as int] == '*' && i + 1 < s@.len() && s@[i as int + 1] == '/'),
{
    let n = s.unicode_len();
    if s.get_char(i) == '*' {
        i < n && i + 1 < n && s.get_char(i + 1) == '/'
    } else {
        false
    }
}

/// The position of the `*` of the first `*/` at or after `from`, or the
/// length when the comment never closes.
fn find_block_close(s: &str, from: usize) -> (r: usize)
    requires
        from <= s@.len(),
    ensures
        r == block_close(s@, from as int),
        from <= r <= s@.len(),
{
    let n = s.unicode_len();
    let mut i = from;
    while i < n && !at_block_close(s, i)
        invariant
            n == s@.len(),
            from <= i <= n,
            block_close(s@, from as int) == block_close(s@, i as int),
        decreases n - i,
    {
        i = i + 1;
    }
    i
}

/// The number of newlines in `s[a..b)`.
fn count_newlines(s: &str, a: usize, b: usize) -> (r: usize)
    requires
        a <= b <= s@.len(),
    ensures
        r == newlines_in(s@, a as int, b as int),
{
    let mut i = a;
    let mut cnt: usize = 0;
    while i < b
        invariant
            a <= i <= b <= s@.len(),
            cnt == newlines_in(s@, a as int, i as int),
            cnt <= i - a,
        decreases b - i,
    {
        if s.get_char(i) == '\n' {
            cnt = cnt + 1;
        }
        i = i + 1;
    }
    cnt
}

/// Pushing one element is appending a one-element sequence.
proof fn lemma_push_is_add_one<A>(s: Seq<A>, t: A)
    ensures
        s.push(t) == s + seq![t],
{
    assert(s.push(t) =~= s + seq![t]);
}

/// Appending the empty sequence changes nothing.
proof fn lemma_add_empty<A>(s: Seq<A>)
    ensures
        s + Seq::<A>::empty() == s,
{
    assert(s + Seq::<A>::empty() =~= s);
}

/// The scanner: a cursor over the source text, the tokens and diagnostics
/// collected so far, and the current line counter.
pub struct Scanner {
    source: String,
    src_len: usize,
    tokens: Vec<Token>,
    diags: Vec<Diagnostic>,
    start: usize,
    current: usize,
    line: usize,
}

impl Scanner {
    /// The source text being scanned.
    pub closed spec fn src(self) -> Seq<char> {
        self.source@
    }

    /// Well-formedness of the cursor state: the cached length is the real
    /// one, the cursor is inside the text, and the line counter stays small
    /// enough that counting one more newline cannot overflow.
    pub closed spec fn wf(self) -> bool {
        &&& self.src_len == self.source@.len()
        &&& self.src_len < usize::MAX
        &&& self.current <= self.src_len
        &&& 1 <= self.line
        &&& self.line <= 1 + self.current
    }

    /// A scanner that has not consumed anything yet.
    pub closed spec fn fresh(self) -> bool {
        &&& self.wf()
        &&& self.current == 0
        &&& self.line == 1
        &&& self.tokens@.len() == 0
        &&& self.diags@.len() == 0
    }

    /// A scanner at the beginning of the given source text. The length bound
    /// is a machine limit: a text of `usize::MAX` characters cannot exist.
    pub fn new(source: String) -> (s: Scanner)
        requires
            source@.len() < usize::MAX,
        ensures
            s.fresh(),
            s.src() == source@,
    {
        let src_len = source.as_str().unicode_len();
        Scanner {
            source,
            src_len,
            tokens: Vec::new(),
            diags: Vec::new(),
            start: 0,
            current: 0,
            line: 1,
        }
    }

    fn is_at_end(&self) -> (r: bool)
        requires
            self.wf(),
        ensures
            r == (self.current == self.src_len),
    {
        self.current >= self.src_len
    }

    fn peek_is(&self, expected: char) -> (r: bool)
        requires
            self.wf(),
        ensures
            r == (self.current < self.src_len && self.src()[self.current as int] == expected),
    {
        if self.current < self.src_len {
            self.source.as_str().get_char(self.current) == expected
        } else {
            false
        }
    }

    fn peek_next_is(&self, expected: char) -> (r: bool)
        requires
            self.wf(),
        ensures
            r == (self.current + 1 < self.src_len && self.src()[self.current as int + 1]
                == expected),
    {
        if self.current < self.src_len && self.current + 1 < self.src_len {
            self.source.as_str().get_char(self.current + 1) == expected
        } else {
            false
        }
    }

    fn peek_is_digit(&self) -> (r: bool)
        requires
            self.wf(),
        ensures
            r == (self.current < self.src_len && is_digit_char(self.src()[self.current as int])),
    {
        if self.current < self.src_len {
            let c = self.source.as_str().get_char(self.current);
            '0' <= c && c <= '9'
        } else {
            false
        }
    }

    fn peek_next_is_digit(&self) -> (r: bool)
        requires
            self.wf(),
        ensures
            r == (self.current + 1 < self.src_len && is_digit_char(
                self.src()[self.current as int + 1],
            )),
    {
        if self.current < self.src_len && self.current + 1 < self.src_len {
            let c = self.source.as_str().get_char(self.current + 1);
            '0' <= c && c <= '9'
        } else {
            false
        }
    }

    fn peek_is_alnum(&self) -> (r: bool)
        requires
            self.wf(),
        ensures
            r == (self.current < self.src_len && is_alnum_char(self.src()[self.current as int])),
    {
        if self.current < self.src_len {
            let c = self.source.as_str().get_char(self.current);
            ('a' <= c && c <= 'z') || ('A' <= c && c <= 'Z') || c == '_' || ('0' <= c && c <= '9')
        } else {
            false
        }
    }

    fn advance(&mut self) -> (c: char)
        requires
            old(self).wf(),
            old(self).current < old(self).src_len,
        ensures
            final(self).wf(),
            c == old(self).src()[old(self).current as int],
            final(self).current == old(self).current + 1,
            final(self).source == old(self).source,
            final(self).src_len == old(self).src_len,
            final(self).start == old(self).start,
            final(self).line == old(self).line,
            final(self).tokens == old(self).tokens,
            final(self).diags == old(self).diags,
    {
        let c = self.source.as_str().get_char(self.current);
        self.current = self.current + 1;
        c
    }

    fn match_next(&mut self, expected: char) -> (r: bool)
        requires
            old(self).wf(),
        ensures
            final(self).wf(),
            r == (old(self).current < old(self).src_len && old(self).src()[old(
                self,
            ).current as int] == expected),
            final(self).current == if r {
                old(self).current + 1
            } else {
                old(self).current as int
            },
            final(self).source == old(self).source,
            final(self).src_len == old(self).src_len,
            final(self).start == old(self).start,
            final(self).line == old(self).line,
            final(self).tokens == old(self).tokens,
            final(self).diags == old(self).diags,
    {
        if self.current >= self.src_len {
            return false;
        }
        if self.source.as_str().get_char(self.current) == expected {
            self.current = self.current + 1;
            true
        } else {
            false
        }
    }

    /// Appends a token whose lexeme runs from `start` to the cursor and that
    /// is reported at the given line.
    fn add_token_at(&mut self, token_type: TokenType, literal: Literal, line: usize)
        requires
            old(self).wf(),
            old(self).start <= old(self).current,
        ensures
            final(self).wf(),
            token_models(final(self).tokens@) == token_models(old(self).tokens@).push(
                TokenModel {
                    token_type: token_type,
                    lexeme: old(self).src().subrange(
                        old(self).start as int,
                        old(self).current as int,
                    ),
                    literal: literal@,
                    line: line as nat,
                },
            ),
            final(self).source == old(self).source,
            final(self).src_len == old(self).src_len,
            final(self).start == old(self).start,
            final(self).current == old(self).current,
            final(self).line == old(self).line,
            final(self).diags == old(self).diags,
    {
        let lexeme = String::from_str(
            self.source.as_str().substring_char(self.start, self.current),
        );
        let t = Token { token_type, lexeme, literal, line };
        self.tokens.push(t);
        proof {
            assert(token_models(self.tokens@) =~= token_models(old(self).tokens@).push(
                TokenModel {
                    token_type: token_type,
                    lexeme: old(self).src().subrange(
                        old(self).start as int,
                        old(self).current as int,
                    ),
                    literal: literal@,
                    line: line as nat,
                },
            ));
        }
    }

    /// Appends a token reported at the current line.
    fn add_token(&mut self, token_type: TokenType, literal: Literal)
        requires
            old(self).wf(),
            old(self).start <= old(self).current,
        ensures
            final(self).wf(),
            token_models(final(self).tokens@) == token_models(old(self).tokens@).push(
                TokenModel {
                    token_type: token_type,
                    lexeme: old(self).src().subrange(
                        old(self).start as int,
                        old(self).current as int,
                    ),
                    literal: literal@,
                    line: old(self).line as nat,
                },
            ),
            final(self).source == old(self).source,
            final(self).src_len == old(self).src_len,
            final(self).start == old(self).start,
            final(self).current == old(self).current,
            final(self).line == old(self).line,
            final(self).diags == old(self).diags,
    {
        let line = self.line;
        self.add_token_at(token_type, literal, line);
    }

    /// What one call that handles the lexeme starting at `start` must do:
    /// exactly the classification step the specification takes there.
    spec fn step_post(pre: Scanner, post: Scanner) -> bool {
        let st = scan_step(pre.source@, pre.start as int, pre.line as int);
        &&& post.wf()
        &&& post.source == pre.source
        &&& post.src_len == pre.src_len
        &&& post.start == pre.start
        &&& post.current == st.next
        &&& post.line == st.line_next
        &&& token_models(post.tokens@) == token_models(pre.tokens@) + opt_token(st.token)
        &&& diag_models(post.diags@) == diag_models(pre.diags@) + opt_diag(st.diag)
    }

    /// Consumes the rest of a string literal; the opening quote is at
    /// `start` and has been consumed.
    fn string(&mut self)
        requires
            old(self).wf(),
            old(self).start + 1 == old(self).current,
            old(self).src()[old(self).start as int] == '"',
        ensures
            Self::step_post(*old(self), *final(self)),
    {
        let ghost src = old(self).src();
        let ghost pos = old(self).start as int;
        let ghost line0 = old(self).line as int;
        let start_line = self.line;
        let close = find_string_close(self.source.as_str(), self.current);
        proof {
            lemma_string_close(src, pos + 1);
            lemma_newlines_in_bounds(src, pos + 1, close as int);
            lemma_newlines_in_bounds(src, pos + 1, src.len() as int);
        }
        if close == self.src_len {
            let nl = count_newlines(self.source.as_str(), self.current, self.src_len);
            self.line = self.line + nl;
            self.current = self.src_len;
            self.diags.push(Diagnostic { line: start_line, kind: DiagKind::UnterminatedString });
            proof {
                let st = scan_step(src, pos, line0);
                assert(diag_models(self.diags@) =~= diag_models(old(self).diags@).push(
                    st.diag->0,
                ));
                lemma_push_is_add_one(diag_models(old(self).diags@), st.diag->0);
                lemma_add_empty(token_models(self.tokens@));
            }
        } else {
            let nl = count_newlines(self.source.as_str(), self.current, close);
            let text = String::from_str(self.source.as_str().substring_char(self.current, close));
            self.line = self.line + nl;
            self.current = close + 1;
            self.add_token_at(TokenType::STRING, Literal::Text(text), start_line);
            proof {
                let st = scan_step(src, pos, line0);
                lemma_push_is_add_one(token_models(old(self).tokens@), st.token->0);
                lemma_add_empty(diag_models(self.diags@));
            }
        }
    }

    /// Consumes the rest of a numeric literal; its first digit is at `start`
    /// and has been consumed.
    fn number(&mut self)
        requires
            old(self).wf(),
            old(self).start + 1 == old(self).current,
            is_digit_char(old(self).src()[old(self).start as int]),
        ensures
            Self::step_post(*old(self), *final(self)),
    {
        let ghost src = old(self).src();
        let ghost pos = old(self).start as int;
        let ghost line0 = old(self).line as int;
        let int_end = find_digits_end(self.source.as_str(), self.current);
        proof {
            lemma_digits_end(src, pos + 1);
        }
        let dot = int_end < self.src_len && self.source.as_str().get_char(int_end) == '.'
            && int_end + 1 < self.src_len && is_digit(self.source.as_str().get_char(int_end + 1));
        let mut end: usize = int_end;
        let mut frac = String::new();
        if dot {
            end = find_digits_end(self.source.as_str(), int_end + 1);
            proof {
                lemma_digits_end(src, int_end as int + 1);
            }
            frac = String::from_str(self.source.as_str().substring_char(int_end + 1, end));
        }
        let int_str = String::from_str(self.source.as_str().substring_char(self.start, int_end));
        proof {
            assert forall|i: int| 0 <= i < int_str@.len() implies is_digit_char(
                #[trigger] int_str@[i],
            ) by {
                assert(int_str@[i] == src[pos + i]);
            }
            assert forall|i: int| 0 <= i < frac@.len() implies is_digit_char(
                #[trigger] frac@[i],
            ) by {
                assert(frac@[i] == src[int_end + 1 + i]);
            }
        }
        let lit = NumLit::from_digits(int_str.as_str(), frac.as_str());
        self.current = end;
        self.add_token(TokenType::NUMBER, Literal::Num(lit));
        proof {
            let st = scan_step(src, pos, line0);
            lemma_push_is_add_one(token_models(old(self).tokens@), st.token->0);
            lemma_add_empty(diag_models(self.diags@));
        }
    }

    /// Consumes the rest of an identifier or keyword; its first character is
    /// at `start` and has been consumed.
    fn identifier(&mut self)
        requires
            old(self).wf(),
            old(self).start + 1 == old(self).current,
            is_alpha_char(old(self).src()[old(self).start as int]),
        ensures
            Self::step_post(*old(self), *final(self)),
    {
        let ghost src = old(self).src();
        let ghost pos = old(self).start as int;
        let ghost line0 = old(self).line as int;
        let end = find_ident_end(self.source.as_str(), self.current);
        proof {
            lemma_ident_end(src, pos + 1);
        }
        self.current = end;
        let text = String::from_str(self.source.as_str().substring_char(self.start, end));
        let token_type: TokenType = if text == String::from_str("and") {
            TokenType::AND
        } else if text == String::from_str("class") {
            TokenType::CLASS
        } else if text == String::from_str("else") {
            TokenType::ELSE
        } else if text == String::from_str("false") {
            TokenType::FALSE
        } else if text == String::from_str("for") {
            TokenType::FOR
        } else if text == String::from_str("fun") {
            TokenType::FUN
        } else if text == String::from_str("if") {
            TokenType::IF
        } else if text == String::from_str("nil") {
            TokenType::NIL
        } else if text == String::from_str("or") {
            TokenType::OR
        } else if text == String::from_str("print") {
            TokenType::PRINT
        } else if text == String::from_str("return") {
            TokenType::RETURN
        } else if text == String::from_str("super") {
            TokenType::SUPER
        } else if text == String::from_str("this") {
            TokenType::THIS
        } else if text == String::from_str("true") {
            TokenType::TRUE
        } else if text == String::from_str("var") {
            TokenType::VAR
        } else if text == String::from_str("while") {
            TokenType::WHILE
        } else {
            TokenType::IDENTIFIER
        };
        self.add_token(token_type, Literal::Absent);
        proof {
            let st = scan_step(src, pos, line0);
            lemma_push_is_add_one(token_models(old(self).tokens@), st.token->0);
            lemma_add_empty(diag_models(self.diags@));
        }
    }

    /// Consumes a block comment; its `/*` begins at `start` and both of its
    /// characters have been consumed.
    fn block_comment(&mut self)
        requires
            old(self).wf(),
            old(self).start + 2 == old(self).current,
            old(self).src()[old(self).start as int] == '/',
            old(self).src()[old(self).start as int + 1] == '*',
        ensures
            Self::step_post(*old(self), *final(self)),
    {
        let ghost src = old(self).src();
        let ghost pos = old(self).start as int;
        let ghost line0 = old(self).line as int;
        let start_line = self.line;
        let close = find_block_close(self.source.as_str(), self.current);
        proof {
            lemma_block_close(src, pos + 2);
            lemma_newlines_in_bounds(src, pos + 2, close as int);
            lemma_newlines_in_bounds(src, pos + 2, src.len() as int);
        }
        if close == self.src_len {
            let nl = count_newlines(self.source.as_str(), self.current, self.src_len);
            self.line = self.line + nl;
            self.current = self.src_len;
            self.diags.push(
                Diagnostic { line: start_line, kind: DiagKind::UnterminatedBlockComment },
            );
            proof {
                let st = scan_step(src, pos, line0);
                assert(diag_models(self.diags@) =~= diag_models(old(self).diags@).push(
                    st.diag->0,
                ));
                lemma_push_is_add_one(diag_models(old(self).diags@), st.diag->0);
                lemma_add_empty(token_models(self.tokens@));
            }
        } else {
            let nl = count_newlines(self.source.as_str(), self.current, close);
            self.line = self.line + nl;
            self.current = close + 2;
            proof {
                lemma_add_empty(token_models(self.tokens@));
                lemma_add_empty(diag_models(self.diags@));
            }
        }
    }

    /// Classifies the single lexeme beginning at `start == current` and
    /// performs exactly the step the specification prescribes for it.
    fn scan_token(&mut self)
        requires
            old(self).wf(),
            old(self).current < old(self).src_len,
            old(self).start == old(self).current,
        ensures
            Self::step_post(*old(self), *final(self)),
    {
        let ghost src = old(self).src();
        let ghost pos = old(self).start as int;
        let ghost line0 = old(self).line as int;
        let c = self.advance();
        if c == '(' {
            self.add_token(TokenType::LEFT_PAREN, Literal::Absent);
            proof {
                self.token_branch(*old(self));
            }
        } else if c == ')' {
            self.add_token(TokenType::RIGHT_PAREN, Literal::Absent);
            proof {
                self.token_branch(*old(self));
            }
        } else if c == '{' {
            self.add_token(TokenType::LEFT_BRACE, Literal::Absent);
            proof {
                self.token_branch(*old(self));
            }
        } else if c == '}' {
            self.add_token(TokenType::RIGHT_BRACE, Literal::Absent);
            proof {
                self.token_branch(*old(self));
            }
        } else if c == ',' {
            self.add_token(TokenType::COMMA, Literal::Absent);
            proof {
                self.token_branch(*old(self));
            }
        } else if c == '.' {
            self.add_token(TokenType::DOT, Literal::Absent);
            proof {
                self.token_branch(*old(self));
            }
        } else if c == '-' {
            self.add_token(TokenType::MINUS, Literal::Absent);
            proof {
                self.token_branch(*old(self));
            }
        } else if c == '+' {
            self.add_token(TokenType::PLUS, Literal::Absent);
            proof {
                self.token_branch(*old(self));
            }
        } else if c == ';' {
            self.add_token(TokenType::SEMICOLON, Literal::Absent);
            proof {
                self.token_branch(*old(self));
            }
        } else if c == '*' {
            self.add_token(TokenType::STAR, Literal::Absent);
            proof {
                self.token_branch(*old(self));
            }
        } else if c == '!' {
            if self.match_next('=') {
                self.add_token(TokenType::BANG_EQUAL, Literal::Absent);
            } else {
                self.add_token(TokenType::BANG, Literal::Absent);
            }
            proof {
                self.token_branch(*old(self));
            }
        } else if c == '=' {
            if self.match_next('=') {
                self.add_token(TokenType::EQUAL_EQUAL, Literal::Absent);
            } else {
                self.add_token(TokenType::EQUAL, Literal::Absent);
            }
            proof {
                self.token_branch(*old(self));
            }
        } else if c == '<' {
            if self.match_next('=') {
                self.add_token(TokenType::LESS_EQUAL, Literal::Absent);
            } else {
                self.add_token(TokenType::LESS, Literal::Absent);
            }
            proof {
                self.token_branch(*old(self));
            }
        } else if c == '>' {
            if self.match_next('=') {
                self.add_token(TokenType::GREATER_EQUAL, Literal::Absent);
            } else {
                self.add_token(TokenType::GREATER, Literal::Absent);
            }
            proof {
                self.token_branch(*old(self));
            }
        } else if c == '/' {
            if self.match_next('/') {
                // the line comment runs to the newline, which is left in
                // place for the next step
                let e = find_line_end(self.source.as_str(), self.current);
                proof {
                    lemma_line_comment_end(src, pos + 2);
                }
                self.current = e;
                proof {
                    self.silent_branch(*old(self));
                }
            } else if self.match_next('*') {
                self.block_comment();
            } else {
                self.add_token(TokenType::SLASH, Literal::Absent);
                proof {
                    self.token_branch(*old(self));
                }
            }
        } else if c == ' ' || c == '\r' || c == '\t' {
            proof {
                self.silent_branch(*old(self));
            }
        } else if c == '\n' {
            self.line = self.line + 1;
            proof {
                self.silent_branch(*old(self));
            }
        } else if c == '"' {
            self.string();
        } else if is_digit(c) {
            self.number();
        } else if is_alpha(c) {
            self.identifier();
        } else {
            let line = self.line;
            self.diags.push(Diagnostic { line, kind: DiagKind::UnexpectedChar(c) });
            proof {
                let st = scan_step(src, pos, line0);
                assert(diag_models(self.diags@) =~= diag_models(old(self).diags@).push(
                    st.diag->0,
                ));
                lemma_push_is_add_one(diag_models(old(self).diags@), st.diag->0);
                lemma_add_empty(token_models(self.tokens@));
            }
        }
    }

    /// Discharges the sequence bookkeeping of a step that emitted one token.
    proof fn token_branch(&self, pre: Scanner)
        requires
            scan_step(pre.source@, pre.start as int, pre.line as int).token is Some,
            token_models(self.tokens@) == token_models(pre.tokens@).push(
                scan_step(pre.source@, pre.start as int, pre.line as int).token->0,
            ),
            self.diags == pre.diags,
        ensures
            token_models(self.tokens@) == token_models(pre.tokens@) + opt_token(
                scan_step(pre.source@, pre.start as int, pre.line as int).token,
            ),
            diag_models(self.diags@) == diag_models(pre.diags@) + opt_diag(
                scan_step(pre.source@, pre.start as int, pre.line as int).diag,
            ),
    {
        let st = scan_step(pre.source@, pre.start as int, pre.line as int);
        lemma_push_is_add_one(token_models(pre.tokens@), st.token->0);
        if st.diag is None {
            lemma_add_empty(diag_models(self.diags@));
        } else {
            assert(diag_models(self.diags@) =~= diag_models(pre.diags@) + opt_diag(st.diag));
        }
    }

    /// Discharges the sequence bookkeeping of a step that emitted nothing.
    proof fn silent_branch(&self, pre: Scanner)
        requires
            scan_step(pre.source@, pre.start as int, pre.line as int).token is None,
            scan_step(pre.source@, pre.start as int, pre.line as int).diag is None,
            self.tokens == pre.tokens,
            self.diags == pre.diags,
        ensures
            token_models(self.tokens@) == token_models(pre.tokens@) + opt_token(
                scan_step(pre.source@, pre.start as int, pre.line as int).token,
            ),
            diag_models(self.diags@) == diag_models(pre.diags@) + opt_diag(
                scan_step(pre.source@, pre.start as int, pre.line as int).diag,
            ),
    {
        lemma_add_empty(token_models(self.tokens@));
        lemma_add_empty(diag_models(self.diags@));
    }

    /// Scans the whole source text: the returned token sequence is exactly
    /// what the specification `scan_result` gives for it, ending in the
    /// `EOF` token, and the diagnostics are exactly the lexical errors the
    /// specification reports, in order.
    pub fn scan_tokens(self) -> (r: (Vec<Token>, Vec<Diagnostic>))
        requires
            self.fresh(),
        ensures
            token_models(r.0@) == scan_result(self.src()).tokens,
            diag_models(r.1@) == scan_result(self.src()).diags,
            r.0@.len() >= 1,
            r.0@[r.0@.len() - 1]@.token_type == TokenType::EOF,
            r.0@[r.0@.len() - 1]@.lexeme.len() == 0,
    {
        let ghost src = self.source@;
        let mut s = self;
        while !s.is_at_end()
            invariant
                s.wf(),
                s.source@ == src,
                token_models(s.tokens@) + scan_rest(src, s.current as int, s.line as int).tokens
                    == scan_rest(src, 0, 1).tokens,
                diag_models(s.diags@) + scan_rest(src, s.current as int, s.line as int).diags
                    == scan_rest(src, 0, 1).diags,
                scan_rest(src, s.current as int, s.line as int).line_end == scan_rest(
                    src,
                    0,
                    1,
                ).line_end,
            decreases s.src_len - s.current,
        {
            s.start = s.current;
            let ghost pre = s;
            s.scan_token();
            proof {
                let st = scan_step(src, pre.current as int, pre.line as int);
                lemma_scan_step_progress(src, pre.current as int, pre.line as int);
                let a = token_models(pre.tokens@);
                let b = opt_token(st.token);
                let rest = scan_rest(src, st.next, st.line_next).tokens;
                assert((a + b) + rest =~= a + (b + rest));
                let da = diag_models(pre.diags@);
                let db = opt_diag(st.diag);
                let drest = scan_rest(src, st.next, st.line_next).diags;
                assert((da + db) + drest =~= da + (db + drest));
            }
        }
        proof {
            lemma_add_empty(token_models(s.tokens@));
            lemma_add_empty(diag_models(s.diags@));
        }
        let eof_line = s.line;
        let eof = Token {
            token_type: TokenType::EOF,
            lexeme: String::new(),
            literal: Literal::Absent,
            line: eof_line,
        };
        let ghost before = s.tokens@;
        s.tokens.push(eof);
        proof {
            assert(token_models(s.tokens@) =~= token_models(before).push(
                eof_model(scan_rest(src, 0, 1).line_end),
            ));
        }
        (s.tokens, s.diags)
    }
}

} // verus!
