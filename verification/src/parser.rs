//! The recursive-descent expression parser. Each grammar level is one
//! method; a level that parses `x ( op x )*` folds the accumulator to the
//! left, which encodes left-associativity in the shape of the tree. The
//! contracts state that a parsed tree conforms to its grammar level, that it
//! covers exactly the tokens the cursor moved over, and that the level could
//! not have extended the tree by another of its operators; and that an
//! error is raised only where something is truly absent: `ExpectExpression`
//! only at a token that cannot begin an expression, `ExpectRightParen` only
//! for a grouping whose completed inner expression lacks its `)`.

use crate::token::Literal;
use crate::token::LiteralModel;
use crate::token::Token;
use crate::token::TokenModel;
use crate::token::TokenType;
use crate::token::token_models;
pub use crate::printer::AstPrinter;
pub use crate::printer::RpnPrinter;

use vstd::prelude::*;

verus! {

/// One parsed expression: an immutable tree with exactly four node kinds.
/// Every `operator` token is a copy of a token the scanner produced.
#[derive(Debug)]
pub enum Expr {
    Binary { left: Box<Expr>, operator: Token, right: Box<Expr> },
    Grouping { expression: Box<Expr> },
    Literal { value: Literal },
    Unary { operator: Token, right: Box<Expr> },
}

/// The operators of the `equality` level.
pub open spec fn is_equality_op(k: TokenType) -> bool {
    k == TokenType::BANG_EQUAL || k == TokenType::EQUAL_EQUAL
}

/// The operators of the `comparison` level.
pub open spec fn is_comparison_op(k: TokenType) -> bool {
    k == TokenType::GREATER || k == TokenType::GREATER_EQUAL || k == TokenType::LESS || k
        == TokenType::LESS_EQUAL
}

/// The operators of the `term` level.
pub open spec fn is_term_op(k: TokenType) -> bool {
    k == TokenType::MINUS || k == TokenType::PLUS
}

/// The operators of the `factor` level.
pub open spec fn is_factor_op(k: TokenType) -> bool {
    k == TokenType::SLASH || k == TokenType::STAR
}

/// The prefix operators of the `unary` level.
pub open spec fn is_unary_op(k: TokenType) -> bool {
    k == TokenType::BANG || k == TokenType::MINUS
}

/// The token kinds that can begin a `primary` expression.
pub open spec fn can_start_primary(k: TokenType) -> bool {
    k == TokenType::NUMBER || k == TokenType::STRING || k == TokenType::TRUE || k
        == TokenType::FALSE || k == TokenType::NIL || k == TokenType::LEFT_PAREN
}

/// The token kinds that can begin an expression at all: a `primary` start
/// or a prefix operator.
pub open spec fn can_start_expression(k: TokenType) -> bool {
    can_start_primary(k) || is_unary_op(k)
}

/// The token kinds an expression can end with: a literal-bearing token or
/// the `)` of a grouping.
pub open spec fn can_end_expression(k: TokenType) -> bool {
    k == TokenType::NUMBER || k == TokenType::STRING || k == TokenType::TRUE || k
        == TokenType::FALSE || k == TokenType::NIL || k == TokenType::RIGHT_PAREN
}

/// The token kinds after which the parser demands the start of a (sub-)
/// expression: every operator and the opening parenthesis.
pub open spec fn expects_expression_after(k: TokenType) -> bool {
    is_equality_op(k) || is_comparison_op(k) || is_term_op(k) || is_factor_op(k) || is_unary_op(k)
        || k == TokenType::LEFT_PAREN
}

/// `e` derives from the grammar rule
/// `equality := comparison ( ( "!=" | "==" ) comparison )*`:
/// a left-leaning chain of equality operators over comparisons.
pub open spec fn is_equality_expr(e: Expr) -> bool
    decreases e, 5int,
{
    match e {
        Expr::Binary { left, operator, right } => {
            if is_equality_op(operator.token_type) {
                is_equality_expr(*left) && is_comparison_expr(*right)
            } else {
                is_comparison_expr(e)
            }
        },
        _ => is_comparison_expr(e),
    }
}

/// `e` derives from `comparison := term ( ( ">" | ">=" | "<" | "<=" ) term )*`.
pub open spec fn is_comparison_expr(e: Expr) -> bool
    decreases e, 4int,
{
    match e {
        Expr::Binary { left, operator, right } => {
            if is_comparison_op(operator.token_type) {
                is_comparison_expr(*left) && is_term_expr(*right)
            } else {
                is_term_expr(e)
            }
        },
        _ => is_term_expr(e),
    }
}

/// `e` derives from `term := factor ( ( "-" | "+" ) factor )*`.
pub open spec fn is_term_expr(e: Expr) -> bool
    decreases e, 3int,
{
    match e {
        Expr::Binary { left, operator, right } => {
            if is_term_op(operator.token_type) {
                is_term_expr(*left) && is_factor_expr(*right)
            } else {
                is_factor_expr(e)
            }
        },
        _ => is_factor_expr(e),
    }
}

/// `e` derives from `factor := unary ( ( "/" | "*" ) unary )*`.
pub open spec fn is_factor_expr(e: Expr) -> bool
    decreases e, 2int,
{
    match e {
        Expr::Binary { left, operator, right } => {
            if is_factor_op(operator.token_type) {
                is_factor_expr(*left) && is_unary_expr(*right)
            } else {
                is_unary_expr(e)
            }
        },
        _ => is_unary_expr(e),
    }
}

/// `e` derives from `unary := ( "!" | "-" ) unary | primary`.
pub open spec fn is_unary_expr(e: Expr) -> bool
    decreases e, 1int,
{
    match e {
        Expr::Unary { operator, right } => is_unary_op(operator.token_type) && is_unary_expr(
            *right,
        ),
        _ => is_primary_expr(e),
    }
}

/// `e` derives from `primary := NUMBER | STRING | "true" | "false" | "nil"
/// | "(" expression ")"`.
pub open spec fn is_primary_expr(e: Expr) -> bool
    decreases e, 0int,
{
    match e {
        Expr::Literal { value } => true,
        Expr::Grouping { expression } => is_equality_expr(*expression),
        _ => false,
    }
}

/// Each grammar level contains the one above it: a `primary` is also a
/// valid `unary`, and so on up to `equality`.
pub proof fn lemma_grammar_subsumption(e: Expr)
    ensures
        is_primary_expr(e) ==> is_unary_expr(e),
        is_unary_expr(e) ==> is_factor_expr(e),
        is_factor_expr(e) ==> is_term_expr(e),
        is_term_expr(e) ==> is_comparison_expr(e),
        is_comparison_expr(e) ==> is_equality_expr(e),
{
    match e {
        Expr::Binary { left, operator, right } => {
            assert(!is_primary_expr(e));
            assert(!is_unary_expr(e));
            assert(!is_factor_op(operator.token_type) ==> !is_factor_expr(e));
            assert(is_factor_expr(e) ==> is_term_expr(e)) by {
                if is_factor_expr(e) {
                    assert(is_factor_op(operator.token_type));
                }
            }
            assert(is_term_expr(e) ==> is_comparison_expr(e)) by {
                if is_term_expr(e) {
                    assert(is_term_op(operator.token_type) || is_factor_op(operator.token_type));
                }
            }
            assert(is_comparison_expr(e) ==> is_equality_expr(e)) by {
                if is_comparison_expr(e) {
                    assert(is_comparison_op(operator.token_type) || is_term_op(operator.token_type)
                        || is_factor_op(operator.token_type));
                }
            }
        },
        Expr::Unary { operator, right } => {
            assert(!is_primary_expr(e));
        },
        Expr::Grouping { expression } => {},
        Expr::Literal { value } => {},
    }
}

/// Left-associativity of the binary levels: in a well-formed tree, the
/// right operand of a `-`/`+` application is never itself a `-`/`+`
/// application, so a chain like `4 - 3 - 1` can only nest to the left; the
/// same holds of each binary level's own operators.
pub proof fn lemma_binary_levels_left_associative(e: Expr)
    requires
        e is Binary,
    ensures
        is_term_expr(e) && is_term_op(e->Binary_operator.token_type) ==> !(*e->Binary_right
            is Binary && is_term_op((*e->Binary_right)->Binary_operator.token_type)),
        is_factor_expr(e) && is_factor_op(e->Binary_operator.token_type) ==> !(*e->Binary_right
            is Binary && is_factor_op((*e->Binary_right)->Binary_operator.token_type)),
        is_comparison_expr(e) && is_comparison_op(e->Binary_operator.token_type) ==> !(
        *e->Binary_right is Binary && is_comparison_op(
            (*e->Binary_right)->Binary_operator.token_type,
        )),
        is_equality_expr(e) && is_equality_op(e->Binary_operator.token_type) ==> !(*e->Binary_right
            is Binary && is_equality_op((*e->Binary_right)->Binary_operator.token_type)),
{
    let r = *e->Binary_right;
    if r is Binary {
        lemma_grammar_subsumption(r);
        assert(!is_primary_expr(r));
        assert(!is_unary_expr(r));
        assert(is_factor_expr(r) ==> is_factor_op(r->Binary_operator.token_type));
        assert(is_term_expr(r) && !is_term_op(r->Binary_operator.token_type) ==> is_factor_expr(
            r,
        ));
        assert(is_comparison_expr(r) && !is_comparison_op(r->Binary_operator.token_type)
            ==> is_term_expr(r));
    }
}

/// The literal value a `primary` builds from one literal-bearing token: the
/// token's own literal for `NUMBER` and `STRING`, the boolean constant's
/// text for `TRUE` and `FALSE`, and the absent value for `nil`.
pub open spec fn literal_of_token(t: TokenModel, v: LiteralModel) -> bool {
    match t.token_type {
        TokenType::NUMBER => v == t.literal,
        TokenType::STRING => v == t.literal,
        TokenType::TRUE => v == LiteralModel::Text("true"@),
        TokenType::FALSE => v == LiteralModel::Text("false"@),
        TokenType::NIL => v == LiteralModel::Absent,
        _ => false,
    }
}

/// The number of tokens a tree stands for: its leaves and operators, and
/// two parentheses for each grouping.
pub open spec fn expr_width(e: Expr) -> int
    decreases e,
{
    match e {
        Expr::Binary { left, operator, right } => expr_width(*left) + 1 + expr_width(*right),
        Expr::Grouping { expression } => 2 + expr_width(*expression),
        Expr::Literal { value } => 1,
        Expr::Unary { operator, right } => 1 + expr_width(*right),
    }
}

/// `e` covers exactly the token range `toks[a..b)`: its leaves and operator
/// tokens, read left to right, are that range, with a grouping accounting
/// for its two parentheses. A binary node's operator sits immediately after
/// the tokens of its left child.
pub open spec fn expr_covers(e: Expr, toks: Seq<TokenModel>, a: int, b: int) -> bool
    decreases e,
{
    match e {
        Expr::Binary { left, operator, right } => {
            let m = a + expr_width(*left);
            &&& expr_covers(*left, toks, a, m)
            &&& 0 <= m < toks.len()
            &&& m + 1 <= b
            &&& toks[m] == operator@
            &&& expr_covers(*right, toks, m + 1, b)
        },
        Expr::Grouping { expression } => 0 <= a && a < b && b <= toks.len()
            && toks[a].token_type == TokenType::LEFT_PAREN && toks[b - 1].token_type
            == TokenType::RIGHT_PAREN && expr_covers(*expression, toks, a + 1, b - 1),
        Expr::Literal { value } => 0 <= a && b == a + 1 && a < toks.len() && literal_of_token(
            toks[a],
            value@,
        ),
        Expr::Unary { operator, right } => 0 <= a && a + 1 <= b && a < toks.len() && toks[a]
            == operator@ && expr_covers(*right, toks, a + 1, b),
    }
}

/// A tree that covers `toks[a..b)` has width exactly `b - a`.
pub proof fn lemma_covers_width(e: Expr, toks: Seq<TokenModel>, a: int, b: int)
    requires
        expr_covers(e, toks, a, b),
    ensures
        b == a + expr_width(e),
    decreases e,
{
    match e {
        Expr::Binary { left, operator, right } => {
            lemma_covers_width(*left, toks, a, a + expr_width(*left));
            lemma_covers_width(*right, toks, a + expr_width(*left) + 1, b);
        },
        Expr::Grouping { expression } => {
            lemma_covers_width(*expression, toks, a + 1, b - 1);
        },
        Expr::Literal { value } => {},
        Expr::Unary { operator, right } => {
            lemma_covers_width(*right, toks, a + 1, b);
        },
    }
}

/// Every tree stands for at least one token.
pub proof fn lemma_width_positive(e: Expr)
    ensures
        expr_width(e) >= 1,
    decreases e,
{
    match e {
        Expr::Binary { left, operator, right } => {
            lemma_width_positive(*left);
            lemma_width_positive(*right);
        },
        Expr::Grouping { expression } => {
            lemma_width_positive(*expression);
        },
        Expr::Literal { value } => {},
        Expr::Unary { operator, right } => {
            lemma_width_positive(*right);
        },
    }
}

/// A covered range is never empty.
pub proof fn lemma_covers_nonempty(e: Expr, toks: Seq<TokenModel>, a: int, b: int)
    requires
        expr_covers(e, toks, a, b),
    ensures
        a < b,
{
    lemma_covers_width(e, toks, a, b);
    lemma_width_positive(e);
}

/// In a well-formed tree, a binary node's operator belongs to one of the
/// four binary operator classes, a unary node's operator is a prefix
/// operator, and every child is itself a well-formed expression.
pub proof fn lemma_expr_structure(e: Expr)
    requires
        is_equality_expr(e),
    ensures
        e is Binary ==> (is_equality_op(e->Binary_operator.token_type) || is_comparison_op(
            e->Binary_operator.token_type,
        ) || is_term_op(e->Binary_operator.token_type) || is_factor_op(
            e->Binary_operator.token_type,
        )) && is_equality_expr(*e->Binary_left) && is_equality_expr(*e->Binary_right),
        e is Unary ==> is_unary_op(e->Unary_operator.token_type) && is_equality_expr(
            *e->Unary_right,
        ),
        e is Grouping ==> is_equality_expr(*e->Grouping_expression),
{
    match e {
        Expr::Binary { left, operator, right } => {
            let k = operator.token_type;
            if is_equality_op(k) {
                lemma_grammar_subsumption(*right);
            } else {
                assert(is_comparison_expr(e));
                if is_comparison_op(k) {
                    lemma_grammar_subsumption(*left);
                    lemma_grammar_subsumption(*right);
                } else {
                    assert(is_term_expr(e));
                    if is_term_op(k) {
                        lemma_grammar_subsumption(*left);
                        lemma_grammar_subsumption(*right);
                    } else {
                        assert(is_factor_expr(e));
                        if is_factor_op(k) {
                            lemma_grammar_subsumption(*left);
                            lemma_grammar_subsumption(*right);
                        } else {
                            assert(is_unary_expr(e));
                            assert(is_primary_expr(e));
                            assert(false);
                        }
                    }
                }
            }
        },
        Expr::Unary { operator, right } => {
            assert(is_comparison_expr(e));
            assert(is_term_expr(e));
            assert(is_factor_expr(e));
            assert(is_unary_expr(e));
            lemma_grammar_subsumption(*right);
        },
        Expr::Grouping { expression } => {
            assert(is_comparison_expr(e));
            assert(is_term_expr(e));
            assert(is_factor_expr(e));
            assert(is_unary_expr(e));
            assert(is_primary_expr(e));
        },
        Expr::Literal { value } => {},
    }
}

/// The parenthesis balance of `toks[a..b)`: `(` counts one up, `)` one
/// down.
pub open spec fn paren_balance(toks: Seq<TokenModel>, a: int, b: int) -> int
    decreases b - a,
{
    if a >= b || a < 0 || b > toks.len() {
        0
    } else {
        paren_balance(toks, a, b - 1) + (if toks[b - 1].token_type == TokenType::LEFT_PAREN {
            1int
        } else if toks[b - 1].token_type == TokenType::RIGHT_PAREN {
            -1int
        } else {
            0int
        })
    }
}

/// The balance of a range is the sum of the balances of its two halves.
pub proof fn lemma_paren_balance_split(toks: Seq<TokenModel>, a: int, m: int, b: int)
    requires
        0 <= a <= m <= b <= toks.len(),
    ensures
        paren_balance(toks, a, b) == paren_balance(toks, a, m) + paren_balance(toks, m, b),
    decreases b - m,
{
    if m < b {
        lemma_paren_balance_split(toks, a, m, b - 1);
    }
}

/// The balance contributed by a single token.
proof fn lemma_paren_balance_one(toks: Seq<TokenModel>, i: int)
    requires
        0 <= i < toks.len(),
    ensures
        paren_balance(toks, i, i + 1) == (if toks[i].token_type == TokenType::LEFT_PAREN {
            1int
        } else if toks[i].token_type == TokenType::RIGHT_PAREN {
            -1int
        } else {
            0int
        }),
{
    assert(paren_balance(toks, i, i) == 0);
}

/// What any covered, grammar-conforming token range looks like: it is not
/// empty, it begins with a token that can start an expression, it ends with
/// one that can end an expression, and its parentheses are balanced. This
/// is what rules out a bogus `ExpectRightParen` report: no such range can
/// end directly after an operator, nor hold a `)` whose `(` lies outside
/// it.
pub proof fn lemma_covers_shape(e: Expr, toks: Seq<TokenModel>, a: int, b: int)
    requires
        is_equality_expr(e),
        expr_covers(e, toks, a, b),
    ensures
        0 <= a && a < b && b <= toks.len(),
        can_start_expression(toks[a].token_type),
        can_end_expression(toks[b - 1].token_type),
        paren_balance(toks, a, b) == 0,
    decreases e,
{
    lemma_expr_structure(e);
    match e {
        Expr::Binary { left, operator, right } => {
            let m = a + expr_width(*left);
            lemma_covers_shape(*left, toks, a, m);
            lemma_covers_shape(*right, toks, m + 1, b);
            lemma_paren_balance_split(toks, a, m, b);
            lemma_paren_balance_split(toks, m, m + 1, b);
            lemma_paren_balance_one(toks, m);
            assert(paren_balance(toks, m, m + 1) == 0);
        },
        Expr::Grouping { expression } => {
            lemma_covers_shape(*expression, toks, a + 1, b - 1);
            lemma_paren_balance_split(toks, a, a + 1, b);
            lemma_paren_balance_split(toks, a + 1, b - 1, b);
            lemma_paren_balance_one(toks, a);
            lemma_paren_balance_one(toks, b - 1);
            assert(paren_balance(toks, a, a + 1) == 1);
            assert(paren_balance(toks, b - 1, b) == -1);
        },
        Expr::Literal { value } => {
            lemma_paren_balance_one(toks, a);
            assert(paren_balance(toks, a, a + 1) == 0);
        },
        Expr::Unary { operator, right } => {
            lemma_covers_shape(*right, toks, a + 1, b);
            lemma_paren_balance_split(toks, a, a + 1, b);
            lemma_paren_balance_one(toks, a);
            assert(paren_balance(toks, a, a + 1) == 0);
        },
    }
}

/// At or after `lo` a grouping was opened whose inner expression is
/// complete and runs exactly to `f`: a `(` stands at `q - 1` and a
/// well-formed expression covers `toks[q..f)`. This is what entitles the
/// parser to demand a `)` at `f`.
pub open spec fn unclosed_group(toks: Seq<TokenModel>, lo: int, f: int) -> bool {
    exists|q: int, inner: Expr|
        lo < q < f && toks[q - 1].token_type == TokenType::LEFT_PAREN && is_equality_expr(inner)
            && #[trigger] expr_covers(inner, toks, q, f)
}

/// Establishes `unclosed_group` from an explicit witness: the `(` at `p`
/// and the inner expression parsed after it.
pub proof fn lemma_unclosed_group_intro(
    toks: Seq<TokenModel>,
    p: int,
    inner: Expr,
    lo: int,
    f: int,
)
    requires
        lo <= p,
        0 <= p < toks.len(),
        toks[p].token_type == TokenType::LEFT_PAREN,
        is_equality_expr(inner),
        expr_covers(inner, toks, p + 1, f),
    ensures
        unclosed_group(toks, lo, f),
{
    lemma_covers_width(inner, toks, p + 1, f);
    lemma_width_positive(inner);
    assert(lo < p + 1 < f);
    assert(toks[(p + 1) - 1].token_type == TokenType::LEFT_PAREN);
    assert(expr_covers(inner, toks, p + 1, f));
}

/// An opened group awaiting its `)` within a narrower range is one within
/// any wider range.
pub proof fn lemma_unclosed_group_widen(toks: Seq<TokenModel>, lo1: int, lo2: int, f: int)
    requires
        lo1 <= lo2,
        unclosed_group(toks, lo2, f),
    ensures
        unclosed_group(toks, lo1, f),
{
    let (q, inner) = choose|q: int, inner: Expr|
        lo2 < q < f && toks[q - 1].token_type == TokenType::LEFT_PAREN && is_equality_expr(inner)
            && #[trigger] expr_covers(inner, toks, q, f);
    assert(expr_covers(inner, toks, q, f));
}

/// Why a parse failed.
#[derive(Clone, Copy, PartialEq, Eq, Structural, Debug)]
pub enum ParseErrorKind {
    /// A token that cannot begin an expression stood where one had to start.
    ExpectExpression,
    /// A grouping was opened and its `)` never came.
    ExpectRightParen,
}

/// The message for a parse failure.
pub open spec fn parse_error_message(kind: ParseErrorKind) -> Seq<char> {
    match kind {
        ParseErrorKind::ExpectExpression => "Expect expression."@,
        ParseErrorKind::ExpectRightParen => "Expect ')' after expression."@,
    }
}

/// A recoverable syntax error: the offending token and what was expected.
#[derive(Debug)]
pub struct ParseError {
    pub token: Token,
    pub kind: ParseErrorKind,
}

impl ParseError {
    /// The human-readable message of this error.
    pub fn message(&self) -> (r: String)
        ensures
            r@ == parse_error_message(self.kind),
    {
        match self.kind {
            ParseErrorKind::ExpectExpression => String::from_str("Expect expression."),
            ParseErrorKind::ExpectRightParen => String::from_str("Expect ')' after expression."),
        }
    }
}

/// The parser: the token sequence it reads and its forward-only cursor.
pub struct Parser {
    tokens: Vec<Token>,
    current: usize,
}

impl Parser {
    /// The views of the tokens being parsed.
    pub closed spec fn toks(self) -> Seq<TokenModel> {
        token_models(self.tokens@)
    }

    /// The cursor: the index of the next token to consider.
    pub closed spec fn cur(self) -> int {
        self.current as int
    }

    /// The cursor is on a token, and the sequence ends with `EOF`, which no
    /// grammar rule consumes.
    pub closed spec fn wf(self) -> bool {
        &&& self.tokens@.len() >= 1
        &&& self.current < self.tokens@.len()
        &&& self.toks()[self.toks().len() - 1].token_type == TokenType::EOF
    }

    /// A parser at the start of the given token sequence, which must end
    /// with the scanner's `EOF` token.
    pub fn new(tokens: Vec<Token>) -> (p: Parser)
        requires
            tokens@.len() >= 1,
            tokens@[tokens@.len() - 1].token_type == TokenType::EOF,
        ensures
            p.wf(),
            p.toks() == token_models(tokens@),
            p.cur() == 0,
    {
        Parser { tokens, current: 0 }
    }

    fn is_at_end(&self) -> (r: bool)
        requires
            self.wf(),
        ensures
            r == (self.toks()[self.cur()].token_type == TokenType::EOF),
    {
        self.peek().token_type == TokenType::EOF
    }

    fn peek(&self) -> (t: &Token)
        requires
            self.wf(),
        ensures
            t@ == self.toks()[self.cur()],
    {
        &self.tokens[self.current]
    }

    fn previous(&self) -> (t: &Token)
        requires
            self.wf(),
            self.cur() >= 1,
        ensures
            t@ == self.toks()[self.cur() - 1],
    {
        &self.tokens[self.current - 1]
    }

    fn check(&self, token_type: TokenType) -> (r: bool)
        requires
            self.wf(),
        ensures
            r == (self.toks()[self.cur()].token_type != TokenType::EOF
                && self.toks()[self.cur()].token_type == token_type),
    {
        if self.is_at_end() {
            return false;
        }
        self.peek().token_type == token_type
    }

    fn advance(&mut self)
        requires
            old(self).wf(),
        ensures
            final(self).wf(),
            final(self).toks() == old(self).toks(),
            final(self).cur() == if old(self).toks()[old(self).cur()].token_type
                != TokenType::EOF {
                old(self).cur() + 1
            } else {
                old(self).cur()
            },
    {
        let n = self.tokens.len();
        if !self.is_at_end() && self.current < n {
            self.current = self.current + 1;
        }
    }

    /// Consumes the next token when its kind is one of the given ones.
    fn match_token(&mut self, token_types: Vec<TokenType>) -> (r: bool)
        requires
            old(self).wf(),
        ensures
            final(self).wf(),
            final(self).toks() == old(self).toks(),
            r == (old(self).toks()[old(self).cur()].token_type != TokenType::EOF
                && token_types@.contains(old(self).toks()[old(self).cur()].token_type)),
            final(self).cur() == if r {
                old(self).cur() + 1
            } else {
                old(self).cur()
            },
    {
        let n = token_types.len();
        let mut i: usize = 0;
        let mut matches = false;
        while i < n
            invariant
                self.wf(),
                self == old(self),
                i <= n,
                n == token_types@.len(),
                matches == (self.toks()[self.cur()].token_type != TokenType::EOF && exists|j: int|
                    0 <= j < i && #[trigger] token_types@[j] == self.toks()[self.cur()].token_type),
            decreases n - i,
        {
            if self.check(token_types[i]) {
                matches = true;
            }
            i = i + 1;
        }
        if matches {
            self.advance();
        }
        matches
    }

    /// The kind of the token under the cursor.
    pub open spec fn next_kind(p: Parser) -> TokenType {
        p.toks()[p.cur()].token_type
    }

    /// What every grammar-level method guarantees: the token sequence is
    /// untouched, the cursor only moves forward, a parsed tree covers
    /// exactly the consumed tokens, and an error names the offending token:
    /// `ExpectExpression` only where the token under the cursor cannot begin
    /// a `primary` (and an operator or `(` demanded one), and
    /// `ExpectRightParen` only where a grouping was opened, its inner
    /// expression is complete and unextendable, and the token under the
    /// cursor fails to close it.
    pub open spec fn level_post(pre: Parser, post: Parser, r: Result<Expr, ParseError>) -> bool {
        &&& post.wf()
        &&& post.toks() == pre.toks()
        &&& pre.cur() <= post.cur()
        &&& match r {
            Ok(e) => expr_covers(e, pre.toks(), pre.cur(), post.cur()) && pre.cur() < post.cur(),
            Err(pe) => {
                &&& 0 <= post.cur() < pre.toks().len()
                &&& pe.token@ == pre.toks()[post.cur()]
                &&& (pe.kind == ParseErrorKind::ExpectExpression ==> !can_start_primary(
                    pre.toks()[post.cur()].token_type,
                ) && (post.cur() == pre.cur() || expects_expression_after(
                    pre.toks()[post.cur() - 1].token_type,
                )))
                &&& (pe.kind == ParseErrorKind::ExpectRightParen ==> {
                    &&& pre.toks()[post.cur()].token_type != TokenType::RIGHT_PAREN
                    &&& !is_equality_op(pre.toks()[post.cur()].token_type)
                    &&& !is_comparison_op(pre.toks()[post.cur()].token_type)
                    &&& !is_term_op(pre.toks()[post.cur()].token_type)
                    &&& !is_factor_op(pre.toks()[post.cur()].token_type)
                    &&& unclosed_group(pre.toks(), pre.cur(), post.cur())
                })
            },
        }
    }

    /// Parses one expression: the lowest-precedence rule.
    pub fn parse(&mut self) -> (r: Result<Expr, ParseError>)
        requires
            old(self).wf(),
        ensures
            Self::level_post(*old(self), *final(self), r),
            (match r {
                Ok(e) => is_equality_expr(e) && !is_equality_op(Self::next_kind(*final(self)))
                    && !is_comparison_op(Self::next_kind(*final(self))) && !is_term_op(
                    Self::next_kind(*final(self)),
                ) && !is_factor_op(Self::next_kind(*final(self))),
                Err(pe) => pe.kind == ParseErrorKind::ExpectExpression
                    ==> !can_start_expression(Self::next_kind(*final(self))),
            }),
    {
        self.expression()
    }

    /// `expression := equality`.
    pub fn expression(&mut self) -> (r: Result<Expr, ParseError>)
        requires
            old(self).wf(),
        ensures
            Self::level_post(*old(self), *final(self), r),
            (match r {
                Ok(e) => is_equality_expr(e) && !is_equality_op(Self::next_kind(*final(self)))
                    && !is_comparison_op(Self::next_kind(*final(self))) && !is_term_op(
                    Self::next_kind(*final(self)),
                ) && !is_factor_op(Self::next_kind(*final(self))),
                Err(pe) => pe.kind == ParseErrorKind::ExpectExpression
                    ==> !can_start_expression(Self::next_kind(*final(self))),
            }),
        decreases old(self).toks().len() - old(self).cur(), 6int,
    {
        self.equality()
    }

    /// `equality := comparison ( ( "!=" | "==" ) comparison )*`, folded to
    /// the left: `a == b != c` parses as `(a == b) != c`.
    pub fn equality(&mut self) -> (r: Result<Expr, ParseError>)
        requires
            old(self).wf(),
        ensures
            Self::level_post(*old(self), *final(self), r),
            (match r {
                Ok(e) => is_equality_expr(e) && !is_equality_op(Self::next_kind(*final(self)))
                    && !is_comparison_op(Self::next_kind(*final(self))) && !is_term_op(
                    Self::next_kind(*final(self)),
                ) && !is_factor_op(Self::next_kind(*final(self))),
                Err(pe) => pe.kind == ParseErrorKind::ExpectExpression
                    ==> !can_start_expression(Self::next_kind(*final(self))),
            }),
        decreases old(self).toks().len() - old(self).cur(), 5int,
    {
        let ghost toks = self.toks();
        let ghost a = self.cur();
        let mut expr: Expr;
        match self.comparison() {
            Ok(e) => {
                expr = e;
            },
            Err(pe) => {
                return Err(pe);
            },
        }
        proof {
            lemma_grammar_subsumption(expr);
        }
        while self.match_token(vec![TokenType::BANG_EQUAL, TokenType::EQUAL_EQUAL])
            invariant
                self.wf(),
                self.toks() == toks,
                toks == old(self).toks(),
                a == old(self).cur(),
                a < self.cur() <= toks.len(),
                is_equality_expr(expr),
                expr_covers(expr, toks, a, self.cur()),
                !is_comparison_op(Self::next_kind(*self)),
                !is_term_op(Self::next_kind(*self)),
                !is_factor_op(Self::next_kind(*self)),
            decreases toks.len() - self.cur(),
        {
            let operator = self.previous().clone();
            let ghost m = self.cur() - 1;
            let right: Expr;
            match self.comparison() {
                Ok(e) => {
                    right = e;
                },
                Err(pe) => {
                    proof {
                        if pe.kind == ParseErrorKind::ExpectRightParen {
                            lemma_unclosed_group_widen(toks, a, m + 1, self.cur());
                        }
                    }
                    return Err(pe);
                },
            }
            expr = Expr::Binary { left: Box::new(expr), operator, right: Box::new(right) };
            proof {
                assert(expr_covers(expr, toks, a, self.cur())) by {
                    assert(expr_covers(*expr->Binary_left, toks, a, m));
                    lemma_covers_width(*expr->Binary_left, toks, a, m);
                    assert(toks[m] == expr->Binary_operator@);
                    assert(expr_covers(*expr->Binary_right, toks, m + 1, self.cur()));
                }
                assert(is_equality_expr(expr)) by {
                    assert(is_equality_expr(*expr->Binary_left));
                    assert(is_comparison_expr(*expr->Binary_right));
                }
            }
        }
        Ok(expr)
    }

    /// `comparison := term ( ( ">" | ">=" | "<" | "<=" ) term )*`, folded to
    /// the left.
    pub fn comparison(&mut self) -> (r: Result<Expr, ParseError>)
        requires
            old(self).wf(),
        ensures
            Self::level_post(*old(self), *final(self), r),
            (match r {
                Ok(e) => is_comparison_expr(e) && !is_comparison_op(Self::next_kind(*final(self)))
                    && !is_term_op(Self::next_kind(*final(self))) && !is_factor_op(
                    Self::next_kind(*final(self)),
                ),
                Err(pe) => pe.kind == ParseErrorKind::ExpectExpression
                    ==> !can_start_expression(Self::next_kind(*final(self))),
            }),
        decreases old(self).toks().len() - old(self).cur(), 4int,
    {
        let ghost toks = self.toks();
        let ghost a = self.cur();
        let mut expr: Expr;
        match self.term() {
            Ok(e) => {
                expr = e;
            },
            Err(pe) => {
                return Err(pe);
            },
        }
        proof {
            lemma_grammar_subsumption(expr);
        }
        while self.match_token(
            vec![
                TokenType::GREATER,
                TokenType::GREATER_EQUAL,
                TokenType::LESS,
                TokenType::LESS_EQUAL,
            ],
        )
            invariant
                self.wf(),
                self.toks() == toks,
                toks == old(self).toks(),
                a == old(self).cur(),
                a < self.cur() <= toks.len(),
                is_comparison_expr(expr),
                expr_covers(expr, toks, a, self.cur()),
                !is_term_op(Self::next_kind(*self)),
                !is_factor_op(Self::next_kind(*self)),
            decreases toks.len() - self.cur(),
        {
            let operator = self.previous().clone();
            let ghost m = self.cur() - 1;
            let right: Expr;
            match self.term() {
                Ok(e) => {
                    right = e;
                },
                Err(pe) => {
                    proof {
                        if pe.kind == ParseErrorKind::ExpectRightParen {
                            lemma_unclosed_group_widen(toks, a, m + 1, self.cur());
                        }
                    }
                    return Err(pe);
                },
            }
            expr = Expr::Binary { left: Box::new(expr), operator, right: Box::new(right) };
            proof {
                assert(expr_covers(expr, toks, a, self.cur())) by {
                    assert(expr_covers(*expr->Binary_left, toks, a, m));
                    lemma_covers_width(*expr->Binary_left, toks, a, m);
                    assert(toks[m] == expr->Binary_operator@);
                    assert(expr_covers(*expr->Binary_right, toks, m + 1, self.cur()));
                }
                assert(is_comparison_expr(expr)) by {
                    assert(is_comparison_expr(*expr->Binary_left));
                    assert(is_term_expr(*expr->Binary_right));
                }
            }
        }
        Ok(expr)
    }

    /// `term := factor ( ( "-" | "+" ) factor )*`, folded to the left:
    /// `4 - 3 - 1` parses as `(4 - 3) - 1`.
    pub fn term(&mut self) -> (r: Result<Expr, ParseError>)
        requires
            old(self).wf(),
        ensures
            Self::level_post(*old(self), *final(self), r),
            (match r {
                Ok(e) => is_term_expr(e) && !is_term_op(Self::next_kind(*final(self)))
                    && !is_factor_op(Self::next_kind(*final(self))),
                Err(pe) => pe.kind == ParseErrorKind::ExpectExpression
                    ==> !can_start_expression(Self::next_kind(*final(self))),
            }),
        decreases old(self).toks().len() - old(self).cur(), 3int,
    {
        let ghost toks = self.toks();
        let ghost a = self.cur();
        let mut expr: Expr;
        match self.factor() {
            Ok(e) => {
                expr = e;
            },
            Err(pe) => {
                return Err(pe);
            },
        }
        proof {
            lemma_grammar_subsumption(expr);
        }
        while self.match_token(vec![TokenType::MINUS, TokenType::PLUS])
            invariant
                self.wf(),
                self.toks() == toks,
                toks == old(self).toks(),
                a == old(self).cur(),
                a < self.cur() <= toks.len(),
                is_term_expr(expr),
                expr_covers(expr, toks, a, self.cur()),
                !is_factor_op(Self::next_kind(*self)),
            decreases toks.len() - self.cur(),
        {
            let operator = self.previous().clone();
            let ghost m = self.cur() - 1;
            let right: Expr;
            match self.factor() {
                Ok(e) => {
                    right = e;
                },
                Err(pe) => {
                    proof {
                        if pe.kind == ParseErrorKind::ExpectRightParen {
                            lemma_unclosed_group_widen(toks, a, m + 1, self.cur());
                        }
                    }
                    return Err(pe);
                },
            }
            expr = Expr::Binary { left: Box::new(expr), operator, right: Box::new(right) };
            proof {
                assert(expr_covers(expr, toks, a, self.cur())) by {
                    assert(expr_covers(*expr->Binary_left, toks, a, m));
                    lemma_covers_width(*expr->Binary_left, toks, a, m);
                    assert(toks[m] == expr->Binary_operator@);
                    assert(expr_covers(*expr->Binary_right, toks, m + 1, self.cur()));
                }
                assert(is_term_expr(expr)) by {
                    assert(is_term_expr(*expr->Binary_left));
                    assert(is_factor_expr(*expr->Binary_right));
                }
            }
        }
        Ok(expr)
    }

    /// `factor := unary ( ( "/" | "*" ) unary )*`, folded to the left.
    pub fn factor(&mut self) -> (r: Result<Expr, ParseError>)
        requires
            old(self).wf(),
        ensures
            Self::level_post(*old(self), *final(self), r),
            (match r {
                Ok(e) => is_factor_expr(e) && !is_factor_op(Self::next_kind(*final(self))),
                Err(pe) => pe.kind == ParseErrorKind::ExpectExpression
                    ==> !can_start_expression(Self::next_kind(*final(self))),
            }),
        decreases old(self).toks().len() - old(self).cur(), 2int,
    {
        let ghost toks = self.toks();
        let ghost a = self.cur();
        let mut expr: Expr;
        match self.unary() {
            Ok(e) => {
                expr = e;
            },
            Err(pe) => {
                return Err(pe);
            },
        }
        proof {
            lemma_grammar_subsumption(expr);
        }
        while self.match_token(vec![TokenType::SLASH, TokenType::STAR])
            invariant
                self.wf(),
                self.toks() == toks,
                toks == old(self).toks(),
                a == old(self).cur(),
                a < self.cur() <= toks.len(),
                is_factor_expr(expr),
                expr_covers(expr, toks, a, self.cur()),
            decreases toks.len() - self.cur(),
        {
            let operator = self.previous().clone();
            let ghost m = self.cur() - 1;
            let right: Expr;
            match self.unary() {
                Ok(e) => {
                    right = e;
                },
                Err(pe) => {
                    proof {
                        if pe.kind == ParseErrorKind::ExpectRightParen {
                            lemma_unclosed_group_widen(toks, a, m + 1, self.cur());
                        }
                    }
                    return Err(pe);
                },
            }
            expr = Expr::Binary { left: Box::new(expr), operator, right: Box::new(right) };
            proof {
                assert(expr_covers(expr, toks, a, self.cur())) by {
                    assert(expr_covers(*expr->Binary_left, toks, a, m));
                    lemma_covers_width(*expr->Binary_left, toks, a, m);
                    assert(toks[m] == expr->Binary_operator@);
                    assert(expr_covers(*expr->Binary_right, toks, m + 1, self.cur()));
                }
                assert(is_factor_expr(expr)) by {
                    assert(is_factor_expr(*expr->Binary_left));
                    assert(is_unary_expr(*expr->Binary_right));
                }
            }
        }
        Ok(expr)
    }

    /// `unary := ( "!" | "-" ) unary | primary`, right-recursive on itself.
    pub fn unary(&mut self) -> (r: Result<Expr, ParseError>)
        requires
            old(self).wf(),
        ensures
            Self::level_post(*old(self), *final(self), r),
            (match r {
                Ok(e) => is_unary_expr(e),
                Err(pe) => pe.kind == ParseErrorKind::ExpectExpression
                    ==> !can_start_expression(Self::next_kind(*final(self))),
            }),
        decreases old(self).toks().len() - old(self).cur(), 1int,
    {
        let ghost toks = self.toks();
        let ghost a = self.cur();
        if self.match_token(vec![TokenType::BANG, TokenType::MINUS]) {
            let operator = self.previous().clone();
            let right: Expr;
            match self.unary() {
                Ok(e) => {
                    right = e;
                },
                Err(pe) => {
                    proof {
                        if pe.kind == ParseErrorKind::ExpectRightParen {
                            lemma_unclosed_group_widen(toks, a, a + 1, self.cur());
                        }
                    }
                    return Err(pe);
                },
            }
            let e = Expr::Unary { operator, right: Box::new(right) };
            proof {
                assert(expr_covers(e, toks, a, self.cur())) by {
                    assert(toks[a] == e->Unary_operator@);
                    assert(expr_covers(*e->Unary_right, toks, a + 1, self.cur()));
                }
                assert(is_unary_expr(e)) by {
                    assert(is_unary_op(e->Unary_operator.token_type));
                    assert(is_unary_expr(*e->Unary_right));
                }
            }
            return Ok(e);
        }
        self.primary()
    }

    /// `primary := NUMBER | STRING | "true" | "false" | "nil"
    /// | "(" expression ")"`. A literal-bearing token becomes a `Literal`
    /// node carrying its value (the constant for `true`, `false` and `nil`);
    /// `(` demands a nested expression and its `)`. Anything else is a
    /// syntax error at the offending token.
    pub fn primary(&mut self) -> (r: Result<Expr, ParseError>)
        requires
            old(self).wf(),
        ensures
            Self::level_post(*old(self), *final(self), r),
            (match r {
                Ok(e) => is_primary_expr(e),
                Err(pe) => {
                    let start = Self::next_kind(*old(self));
                    &&& (can_start_primary(start) ==> start == TokenType::LEFT_PAREN
                        && old(self).cur() < final(self).cur())
                    &&& (!can_start_primary(start) ==> final(self).cur() == old(self).cur()
                        && pe.kind == ParseErrorKind::ExpectExpression)
                    &&& (pe.kind == ParseErrorKind::ExpectExpression
                        && old(self).cur() < final(self).cur() ==> !is_unary_op(
                        Self::next_kind(*final(self)),
                    ))
                },
            }),
        decreases old(self).toks().len() - old(self).cur(), 0int,
    {
        let ghost toks = self.toks();
        let ghost a = self.cur();
        if self.match_token(
            vec![
                TokenType::FALSE,
                TokenType::TRUE,
                TokenType::NIL,
                TokenType::NUMBER,
                TokenType::STRING,
            ],
        ) {
            let prev = self.previous();
            let value: Literal = if prev.token_type == TokenType::FALSE {
                Literal::Text(String::from_str("false"))
            } else if prev.token_type == TokenType::TRUE {
                Literal::Text(String::from_str("true"))
            } else if prev.token_type == TokenType::NIL {
                Literal::Absent
            } else {
                prev.literal.clone()
            };
            let e = Expr::Literal { value };
            proof {
                assert(expr_covers(e, toks, a, self.cur()));
            }
            return Ok(e);
        }
        if self.match_token(vec![TokenType::LEFT_PAREN]) {
            let expr: Expr;
            match self.expression() {
                Ok(e) => {
                    expr = e;
                },
                Err(pe) => {
                    proof {
                        assert(toks[a].token_type == TokenType::LEFT_PAREN);
                        if pe.kind == ParseErrorKind::ExpectRightParen {
                            lemma_unclosed_group_widen(toks, a, a + 1, self.cur());
                        }
                    }
                    return Err(pe);
                },
            }
            match self.consume(TokenType::RIGHT_PAREN, ParseErrorKind::ExpectRightParen) {
                Ok(_) => {},
                Err(pe) => {
                    proof {
                        assert(toks[a].token_type == TokenType::LEFT_PAREN);
                        lemma_unclosed_group_intro(toks, a, expr, a, self.cur());
                    }
                    return Err(pe);
                },
            }
            let e = Expr::Grouping { expression: Box::new(expr) };
            proof {
                assert(expr_covers(e, toks, a, self.cur())) by {
                    assert(toks[a].token_type == TokenType::LEFT_PAREN);
                    assert(toks[self.cur() - 1].token_type == TokenType::RIGHT_PAREN);
                    assert(expr_covers(*e->Grouping_expression, toks, a + 1, self.cur() - 1));
                }
                assert(is_primary_expr(e)) by {
                    assert(is_equality_expr(*e->Grouping_expression));
                }
            }
            return Ok(e);
        }
        let token = self.peek().clone();
        Err(ParseError { token, kind: ParseErrorKind::ExpectExpression })
    }

    /// Demands the given token kind; on anything else, reports the given
    /// error at the offending token and consumes nothing.
    fn consume(&mut self, token_type: TokenType, kind: ParseErrorKind) -> (r: Result<
        (),
        ParseError,
    >)
        requires
            old(self).wf(),
        ensures
            final(self).wf(),
            final(self).toks() == old(self).toks(),
            match r {
                Ok(_) => old(self).toks()[old(self).cur()].token_type == token_type && old(
                    self,
                ).toks()[old(self).cur()].token_type != TokenType::EOF && final(self).cur() == old(
                    self,
                ).cur() + 1,
                Err(pe) => {
                    &&& !(old(self).toks()[old(self).cur()].token_type == token_type && old(
                        self,
                    ).toks()[old(self).cur()].token_type != TokenType::EOF)
                    &&& *final(self) == *old(self)
                    &&& pe.token@ == old(self).toks()[old(self).cur()]
                    &&& pe.kind == kind
                },
            },
    {
        if self.check(token_type) {
            self.advance();
            Ok(())
        } else {
            let token = self.peek().clone();
            Err(ParseError { token, kind })
        }
    }
}

} // verus!
