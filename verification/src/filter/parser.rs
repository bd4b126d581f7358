//! Recursive-descent evaluator of the filter language.
//!
//! Grammar:
//!   expr     = or_expr
//!   or_expr  = and_expr (("||" | "or") and_expr)*
//!   and_expr = comp (("&&" | "and") comp)*
//!   comp     = add (("==" | "!=" | ">" | "<" | ">=" | "<=") add)*
//!   add      = mul (("+" | "-") mul)*
//!   mul      = unary (("*" | "/") unary)*
//!   unary    = "-" unary | primary
//!   primary  = NUMBER | STRING | RESTRING | TIME | NAME | "(" expr ")"

use vstd::hash_map::StringHashMap;
use vstd::prelude::*;

use crate::calendar::{chrono_debug, debug_datetime, DateTime};
use crate::filter::lexer::{lex, token_views, tokens_of, Token, TokenView};
use crate::filter::number::{answers, dependable, ArithOp, CompareOp, Num};
use crate::filter::value::{
    both, combine, compare, either, flip_sign, flipped_sign, truthy_and, truthy_or, value_compares,
    value_result, Value, ValueView,
};
use crate::text::{concat2, copy_str, i64_text, signed_decimal};

verus! {

// ── variables ────────────────────────────────────────────────────────────

/// Named values.
pub struct Vars {
    map: StringHashMap<Value>,
}

impl View for Vars {
    type V = Map<Seq<char>, ValueView>;

    closed spec fn view(&self) -> Map<Seq<char>, ValueView> {
        self.map@.map_values(|v: Value| v@)
    }
}

impl Vars {
    /// No names.
    pub fn new() -> (r: Vars)
        ensures
            r@ == Map::<Seq<char>, ValueView>::empty(),
    {
        let r = Vars { map: StringHashMap::new() };
        assert(r@ =~= Map::<Seq<char>, ValueView>::empty());
        r
    }

    /// Gives `name` a value, in place of the one that it had.
    pub fn insert(&mut self, name: String, value: Value)
        ensures
            final(self)@ == old(self)@.insert(name@, value@),
    {
        self.map.insert(name, value);
        assert(self@ =~= old(self)@.insert(name@, value@));
    }

    /// The value of `name`.
    pub fn get(&self, name: &str) -> (r: Option<Value>)
        ensures
            match r {
                Some(v) => self@.contains_key(name@) && v@ == self@[name@],
                None => !self@.contains_key(name@),
            },
    {
        match self.map.get(name) {
            Some(v) => Some(v.duplicate()),
            None => None,
        }
    }
}

// ── what an expression means ─────────────────────────────────────────────

/// What an expression depends on besides its tokens: the variables, and how fractional numbers
/// are computed with and compared.
pub struct Scope {
    pub vars: Map<Seq<char>, ValueView>,
    pub arith: spec_fn(ArithOp, Num, Num) -> Num,
    pub compare: spec_fn(CompareOp, Num, Num) -> bool,
}

/// Why an expression has no value.
pub enum FaultView {
    /// A closing parenthesis was due.
    Expected(TokenView),
    /// The expression ended before the text did.
    Trailing(TokenView),
    /// No operand starts here.
    Unexpected(TokenView),
    /// No variable has this name.
    Undefined(Seq<char>),
    /// Only numbers can be negated.
    NotNumeric,
}

/// What becomes of an expression.
pub enum Outcome {
    Value(ValueView),
    Fault(FaultView),
    /// The least 64-bit integer was to be negated.
    Overflow,
}

/// The token at `p`, or the end.
pub open spec fn token_here(t: Seq<TokenView>, p: int) -> TokenView {
    if 0 <= p < t.len() {
        t[p]
    } else {
        TokenView::Eof
    }
}

/// The position behind the token at `p`; the end has none behind it.
pub open spec fn behind(t: Seq<TokenView>, p: int) -> int {
    if p < t.len() {
        p + 1
    } else {
        p
    }
}

/// The negation of an outcome.
pub open spec fn negated(o: Outcome) -> Outcome {
    match o {
        Outcome::Value(ValueView::Int(n)) => if n == i64::MIN {
            Outcome::Overflow
        } else {
            Outcome::Value(ValueView::Int((-n) as i64))
        },
        Outcome::Value(ValueView::Float(bits)) => Outcome::Value(
            ValueView::Float(flipped_sign(bits)),
        ),
        Outcome::Value(_) => Outcome::Fault(FaultView::NotNumeric),
        _ => o,
    }
}

/// The operand at `p` and the position behind it.
pub open spec fn primary(sc: Scope, t: Seq<TokenView>, p: int) -> (Outcome, int)
    decreases t.len() - p, 0nat,
{
    match token_here(t, p) {
        TokenView::Num(n) => (Outcome::Value(ValueView::Int(n)), p + 1),
        TokenView::Str(s) => (Outcome::Value(ValueView::Str(s)), p + 1),
        TokenView::ReStr(s) => (Outcome::Value(ValueView::ReStr(s)), p + 1),
        TokenView::Time(at) => (Outcome::Value(ValueView::DateTime(at)), p + 1),
        TokenView::Name(n) => if sc.vars.contains_key(n) {
            (Outcome::Value(sc.vars[n]), p + 1)
        } else {
            (Outcome::Fault(FaultView::Undefined(n)), p + 1)
        },
        TokenView::LParen => {
            let (o, q) = or_expr(sc, t, p + 1);
            if o is Value {
                if token_here(t, q) is RParen {
                    (o, q + 1)
                } else {
                    (Outcome::Fault(FaultView::Expected(token_here(t, q))), behind(t, q))
                }
            } else {
                (o, q)
            }
        },
        other => (Outcome::Fault(FaultView::Unexpected(other)), p),
    }
}

/// An operand with minus signs before it.
pub open spec fn unary(sc: Scope, t: Seq<TokenView>, p: int) -> (Outcome, int)
    decreases t.len() - p, 1nat,
{
    if token_here(t, p) is Minus {
        let (o, q) = unary(sc, t, p + 1);
        (negated(o), q)
    } else {
        primary(sc, t, p)
    }
}

/// The multiplicative operator that a token is.
pub open spec fn mul_op(token: TokenView) -> Option<ArithOp> {
    match token {
        TokenView::Star => Some(ArithOp::Mul),
        TokenView::Slash => Some(ArithOp::Div),
        _ => None,
    }
}

/// The additive operator that a token is.
pub open spec fn add_op(token: TokenView) -> Option<ArithOp> {
    match token {
        TokenView::Plus => Some(ArithOp::Add),
        TokenView::Minus => Some(ArithOp::Sub),
        _ => None,
    }
}

/// A product or quotient.
pub open spec fn mul_expr(sc: Scope, t: Seq<TokenView>, p: int) -> (Outcome, int)
    decreases t.len() - p, 2nat,
{
    let (o, q) = unary(sc, t, p);
    match o {
        Outcome::Value(l) if p < q <= t.len() => mul_rest(sc, t, q, l),
        _ => (o, q),
    }
}

/// The factors that follow `l`, taken in from left to right.
pub open spec fn mul_rest(sc: Scope, t: Seq<TokenView>, p: int, l: ValueView) -> (Outcome, int)
    decreases t.len() - p, 0nat,
{
    match mul_op(token_here(t, p)) {
        Some(op) => {
            let (o, q) = unary(sc, t, p + 1);
            match o {
                Outcome::Value(r) if p < q <= t.len() => mul_rest(
                    sc,
                    t,
                    q,
                    value_result(sc.arith, op, l, r),
                ),
                _ => (o, q),
            }
        },
        None => (Outcome::Value(l), p),
    }
}

/// A sum or difference.
pub open spec fn add_expr(sc: Scope, t: Seq<TokenView>, p: int) -> (Outcome, int)
    decreases t.len() - p, 3nat,
{
    let (o, q) = mul_expr(sc, t, p);
    match o {
        Outcome::Value(l) if p < q <= t.len() => add_rest(sc, t, q, l),
        _ => (o, q),
    }
}

/// The terms that follow `l`, taken in from left to right.
pub open spec fn add_rest(sc: Scope, t: Seq<TokenView>, p: int, l: ValueView) -> (Outcome, int)
    decreases t.len() - p, 0nat,
{
    match add_op(token_here(t, p)) {
        Some(op) => {
            let (o, q) = mul_expr(sc, t, p + 1);
            match o {
                Outcome::Value(r) if p < q <= t.len() => add_rest(
                    sc,
                    t,
                    q,
                    value_result(sc.arith, op, l, r),
                ),
                _ => (o, q),
            }
        },
        None => (Outcome::Value(l), p),
    }
}

/// A comparison.
pub open spec fn comp(sc: Scope, t: Seq<TokenView>, p: int) -> (Outcome, int)
    decreases t.len() - p, 4nat,
{
    let (o, q) = add_expr(sc, t, p);
    match o {
        Outcome::Value(l) if p < q <= t.len() => comp_rest(sc, t, q, l),
        _ => (o, q),
    }
}

/// The comparisons that follow `l`, made from left to right.
pub open spec fn comp_rest(sc: Scope, t: Seq<TokenView>, p: int, l: ValueView) -> (Outcome, int)
    decreases t.len() - p, 0nat,
{
    match token_here(t, p) {
        TokenView::Compare(op) => {
            let (o, q) = add_expr(sc, t, p + 1);
            match o {
                Outcome::Value(r) if p < q <= t.len() => comp_rest(
                    sc,
                    t,
                    q,
                    ValueView::Bool(value_compares(sc.compare, op, l, r)),
                ),
                _ => (o, q),
            }
        },
        _ => (Outcome::Value(l), p),
    }
}

/// A conjunction.
pub open spec fn and_expr(sc: Scope, t: Seq<TokenView>, p: int) -> (Outcome, int)
    decreases t.len() - p, 5nat,
{
    let (o, q) = comp(sc, t, p);
    match o {
        Outcome::Value(l) if p < q <= t.len() => and_rest(sc, t, q, l),
        _ => (o, q),
    }
}

/// The conjuncts that follow `l`.
pub open spec fn and_rest(sc: Scope, t: Seq<TokenView>, p: int, l: ValueView) -> (Outcome, int)
    decreases t.len() - p, 0nat,
{
    if token_here(t, p) is And {
        let (o, q) = comp(sc, t, p + 1);
        match o {
            Outcome::Value(r) if p < q <= t.len() => and_rest(sc, t, q, both(l, r)),
            _ => (o, q),
        }
    } else {
        (Outcome::Value(l), p)
    }
}

/// A disjunction.
pub open spec fn or_expr(sc: Scope, t: Seq<TokenView>, p: int) -> (Outcome, int)
    decreases t.len() - p, 6nat,
{
    let (o, q) = and_expr(sc, t, p);
    match o {
        Outcome::Value(l) if p < q <= t.len() => or_rest(sc, t, q, l),
        _ => (o, q),
    }
}

/// The disjuncts that follow `l`.
pub open spec fn or_rest(sc: Scope, t: Seq<TokenView>, p: int, l: ValueView) -> (Outcome, int)
    decreases t.len() - p, 0nat,
{
    if token_here(t, p) is Or {
        let (o, q) = and_expr(sc, t, p + 1);
        match o {
            Outcome::Value(r) if p < q <= t.len() => or_rest(sc, t, q, either(l, r)),
            _ => (o, q),
        }
    } else {
        (Outcome::Value(l), p)
    }
}

/// What becomes of the expression at `p`, which runs to the end of the tokens.
pub open spec fn expression(sc: Scope, t: Seq<TokenView>, p: int) -> (Outcome, int) {
    let (o, q) = or_expr(sc, t, p);
    if o is Value && !(token_here(t, q) is Eof) {
        (Outcome::Fault(FaultView::Trailing(token_here(t, q))), q)
    } else {
        (o, q)
    }
}

// ── error texts ──────────────────────────────────────────────────────────

/// What a text shows of itself under `Debug`: in quotes, with escapes.
pub uninterp spec fn debug_text(s: Seq<char>) -> Seq<char>;

/// The `Debug` text of a `str`, named `debug_text`.
#[verifier::external_body]
fn debug_str(s: &str) -> (r: String)
    ensures
        r@ == debug_text(s@),
{
    format!("{s:?}")
}

/// The name of a comparison operator.
pub open spec fn compare_name(op: CompareOp) -> Seq<char> {
    match op {
        CompareOp::Eq => "Eq"@,
        CompareOp::Ne => "Ne"@,
        CompareOp::Gt => "Gt"@,
        CompareOp::Lt => "Lt"@,
        CompareOp::Ge => "Ge"@,
        CompareOp::Le => "Le"@,
    }
}

/// How a token is shown in an error.
pub open spec fn token_text(token: TokenView) -> Seq<char> {
    match token {
        TokenView::Num(n) => "Num("@ + signed_decimal(n as int) + ")"@,
        TokenView::Str(s) => "Str("@ + debug_text(s) + ")"@,
        TokenView::ReStr(s) => "ReStr(Regex("@ + debug_text(s) + "))"@,
        TokenView::Time(at) => "Time("@ + (match chrono_debug(at.secs, at.nanos) {
            Some(text) => text,
            None => Seq::empty(),
        }) + ")"@,
        TokenView::Name(s) => "Name("@ + debug_text(s) + ")"@,
        TokenView::And => "And"@,
        TokenView::Or => "Or"@,
        TokenView::Compare(op) => compare_name(op),
        TokenView::Plus => "Plus"@,
        TokenView::Minus => "Minus"@,
        TokenView::Star => "Star"@,
        TokenView::Slash => "Slash"@,
        TokenView::LParen => "LParen"@,
        TokenView::RParen => "RParen"@,
        TokenView::Eof => "Eof"@,
    }
}

/// The text of an error.
pub open spec fn fault_text(fault: FaultView) -> Seq<char> {
    match fault {
        FaultView::Expected(token) => "expected ), got "@ + token_text(token),
        FaultView::Trailing(token) => "unexpected token after expression: "@ + token_text(token),
        FaultView::Unexpected(token) => "unexpected token: "@ + token_text(token),
        FaultView::Undefined(name) => "undefined variable: "@ + name,
        FaultView::NotNumeric => "cannot negate non-numeric value"@,
    }
}

fn wrapped(open: &str, inner: &str, close: &str) -> (r: String)
    ensures
        r@ == open@ + inner@ + close@,
{
    let mut r = copy_str(open);
    r.append(inner);
    r.append(close);
    r
}

fn show_datetime(at: DateTime) -> (r: String)
    ensures
        r@ == (match chrono_debug(at.secs, at.nanos) {
            Some(text) => text,
            None => Seq::empty(),
        }),
{
    match debug_datetime(at) {
        Some(text) => text,
        None => String::new(),
    }
}

fn show_compare(op: CompareOp) -> (r: String)
    ensures
        r@ == compare_name(op),
{
    match op {
        CompareOp::Eq => copy_str("Eq"),
        CompareOp::Ne => copy_str("Ne"),
        CompareOp::Gt => copy_str("Gt"),
        CompareOp::Lt => copy_str("Lt"),
        CompareOp::Ge => copy_str("Ge"),
        CompareOp::Le => copy_str("Le"),
    }
}

/// How a token is shown in an error.
pub fn show_token(token: &Token) -> (r: String)
    ensures
        r@ == token_text(token@),
{
    match token {
        Token::Num(n) => wrapped("Num(", i64_text(*n).as_str(), ")"),
        Token::Str(s) => wrapped("Str(", debug_str(s.as_str()).as_str(), ")"),
        Token::ReStr(p) => wrapped("ReStr(Regex(", debug_str(p.source().as_str()).as_str(), "))"),
        Token::Time(at) => wrapped("Time(", show_datetime(*at).as_str(), ")"),
        Token::Name(s) => wrapped("Name(", debug_str(s.as_str()).as_str(), ")"),
        Token::And => copy_str("And"),
        Token::Or => copy_str("Or"),
        Token::Compare(op) => show_compare(*op),
        Token::Plus => copy_str("Plus"),
        Token::Minus => copy_str("Minus"),
        Token::Star => copy_str("Star"),
        Token::Slash => copy_str("Slash"),
        Token::LParen => copy_str("LParen"),
        Token::RParen => copy_str("RParen"),
        Token::Eof => copy_str("Eof"),
    }
}

// ── the evaluator ────────────────────────────────────────────────────────

/// Why evaluation stopped.
enum Halt {
    /// An error, with its text.
    Fault(String),
    /// The least 64-bit integer was to be negated.
    Overflow,
}

/// The evaluator stopped as the outcome says.
spec fn agrees(r: Result<Value, Halt>, o: Outcome) -> bool {
    match (r, o) {
        (Ok(v), Outcome::Value(w)) => v@ == w,
        (Err(Halt::Fault(text)), Outcome::Fault(fault)) => text@ == fault_text(fault),
        (Err(Halt::Overflow), Outcome::Overflow) => true,
        _ => false,
    }
}

/// A tokenized expression and a position in it.
pub struct Parser {
    tokens: Vec<Token>,
    pos: usize,
}

impl Parser {
    /// The tokens of the expression.
    pub closed spec fn tokens(&self) -> Seq<TokenView> {
        token_views(self.tokens@)
    }

    /// How many tokens have been consumed.
    pub closed spec fn at(&self) -> int {
        self.pos as int
    }

    /// The position lies within the tokens.
    pub open spec fn well_formed(&self) -> bool {
        0 <= self.at() <= self.tokens().len()
    }

    /// A parser at the start of `input`.
    pub fn new(input: &str) -> (r: Parser)
        requires
            tokens_of(input@) is Some,
        ensures
            r.well_formed(),
            Some(r.tokens()) == tokens_of(input@),
            r.at() == 0,
    {
        match lex(input) {
            Some(tokens) => Parser { tokens, pos: 0 },
            None => {
                assert(false);
                Parser { tokens: Vec::new(), pos: 0 }
            },
        }
    }

    /// As [`Parser::new`], on any text: `None` where it holds a number beyond 64 bits.
    pub fn try_new(input: &str) -> (r: Option<Parser>)
        ensures
            r is Some <==> tokens_of(input@) is Some,
            r matches Some(p) ==> p.well_formed() && Some(p.tokens()) == tokens_of(input@)
                && p.at() == 0,
    {
        if lex(input).is_none() {
            return None;
        }
        Some(Parser::new(input))
    }

    /// The token at the position.
    fn peek(&self) -> (r: &Token)
        requires
            self.well_formed(),
        ensures
            r@ == token_here(self.tokens(), self.at()),
    {
        if self.pos < self.tokens.len() {
            &self.tokens[self.pos]
        } else {
            &Token::Eof
        }
    }

    /// Steps behind the token at the position.
    fn advance(&mut self)
        requires
            old(self).well_formed(),
        ensures
            final(self).well_formed(),
            final(self).tokens() == old(self).tokens(),
            final(self).at() == behind(old(self).tokens(), old(self).at()),
    {
        if self.pos < self.tokens.len() {
            self.pos = self.pos + 1;
        }
    }

    fn fault_here(&self, prefix: &str) -> (h: Halt)
        requires
            self.well_formed(),
        ensures
            h is Fault,
            h->Fault_0@ == prefix@ + token_text(token_here(self.tokens(), self.at())),
    {
        let text = show_token(self.peek());
        Halt::Fault(concat2(prefix, text.as_str()))
    }

    fn or_expr<A, C>(&mut self, vars: &Vars, arith: &A, order: &C) -> (r: Result<Value, Halt>) where
        A: Fn(ArithOp, Num, Num) -> Num,
        C: Fn(CompareOp, Num, Num) -> bool,

        requires
            old(self).well_formed(),
            dependable(*arith),
            dependable(*order),
        ensures
            final(self).well_formed(),
            final(self).tokens() == old(self).tokens(),
            agrees(r, or_expr(scope(vars, arith, order), old(self).tokens(), old(self).at()).0),
            final(self).at() == or_expr(
                scope(vars, arith, order),
                old(self).tokens(),
                old(self).at(),
            ).1,
            r is Ok ==> final(self).at() > old(self).at(),
        decreases old(self).tokens().len() - old(self).at(), 6nat,
    {
        let ghost sc = scope(vars, arith, order);
        let ghost t = self.tokens();
        let ghost p = self.at();
        let mut left = match self.and_expr(vars, arith, order) {
            Ok(v) => v,
            Err(h) => return Err(h),
        };
        loop
            invariant
                self.well_formed(),
                self.tokens() == t,
                self.at() > p,
                0 <= p < t.len(),
                t == old(self).tokens(),
                p == old(self).at(),
                sc == scope(vars, arith, order),
                dependable(*arith),
                dependable(*order),
                or_expr(sc, t, p) == or_rest(sc, t, self.at(), left@),
            decreases t.len() - self.at(),
        {
            match self.peek() {
                Token::Or => {},
                _ => return Ok(left),
            }
            self.advance();
            let right = match self.and_expr(vars, arith, order) {
                Ok(v) => v,
                Err(h) => return Err(h),
            };
            left = truthy_or(left, right);
        }
    }

    fn and_expr<A, C>(&mut self, vars: &Vars, arith: &A, order: &C) -> (r: Result<Value, Halt>) where
        A: Fn(ArithOp, Num, Num) -> Num,
        C: Fn(CompareOp, Num, Num) -> bool,

        requires
            old(self).well_formed(),
            dependable(*arith),
            dependable(*order),
        ensures
            final(self).well_formed(),
            final(self).tokens() == old(self).tokens(),
            agrees(r, and_expr(scope(vars, arith, order), old(self).tokens(), old(self).at()).0),
            final(self).at() == and_expr(
                scope(vars, arith, order),
                old(self).tokens(),
                old(self).at(),
            ).1,
            r is Ok ==> final(self).at() > old(self).at(),
        decreases old(self).tokens().len() - old(self).at(), 5nat,
    {
        let ghost sc = scope(vars, arith, order);
        let ghost t = self.tokens();
        let ghost p = self.at();
        let mut left = match self.comp(vars, arith, order) {
            Ok(v) => v,
            Err(h) => return Err(h),
        };
        loop
            invariant
                self.well_formed(),
                self.tokens() == t,
                self.at() > p,
                0 <= p < t.len(),
                t == old(self).tokens(),
                p == old(self).at(),
                sc == scope(vars, arith, order),
                dependable(*arith),
                dependable(*order),
                and_expr(sc, t, p) == and_rest(sc, t, self.at(), left@),
            decreases t.len() - self.at(),
        {
            match self.peek() {
                Token::And => {},
                _ => return Ok(left),
            }
            self.advance();
            let right = match self.comp(vars, arith, order) {
                Ok(v) => v,
                Err(h) => return Err(h),
            };
            left = truthy_and(left, right);
        }
    }

    fn comp<A, C>(&mut self, vars: &Vars, arith: &A, order: &C) -> (r: Result<Value, Halt>) where
        A: Fn(ArithOp, Num, Num) -> Num,
        C: Fn(CompareOp, Num, Num) -> bool,

        requires
            old(self).well_formed(),
            dependable(*arith),
            dependable(*order),
        ensures
            final(self).well_formed(),
            final(self).tokens() == old(self).tokens(),
            agrees(r, comp(scope(vars, arith, order), old(self).tokens(), old(self).at()).0),
            final(self).at() == comp(
                scope(vars, arith, order),
                old(self).tokens(),
                old(self).at(),
            ).1,
            r is Ok ==> final(self).at() > old(self).at(),
        decreases old(self).tokens().len() - old(self).at(), 4nat,
    {
        let ghost sc = scope(vars, arith, order);
        let ghost t = self.tokens();
        let ghost p = self.at();
        let mut left = match self.add_expr(vars, arith, order) {
            Ok(v) => v,
            Err(h) => return Err(h),
        };
        loop
            invariant
                self.well_formed(),
                self.tokens() == t,
                self.at() > p,
                0 <= p < t.len(),
                t == old(self).tokens(),
                p == old(self).at(),
                sc == scope(vars, arith, order),
                dependable(*arith),
                dependable(*order),
                comp(sc, t, p) == comp_rest(sc, t, self.at(), left@),
            decreases t.len() - self.at(),
        {
            let op = match self.peek() {
                Token::Compare(op) => *op,
                _ => return Ok(left),
            };
            self.advance();
            let right = match self.add_expr(vars, arith, order) {
                Ok(v) => v,
                Err(h) => return Err(h),
            };
            left = compare(order, &left, op, &right);
        }
    }

    fn add_expr<A, C>(&mut self, vars: &Vars, arith: &A, order: &C) -> (r: Result<Value, Halt>) where
        A: Fn(ArithOp, Num, Num) -> Num,
        C: Fn(CompareOp, Num, Num) -> bool,

        requires
            old(self).well_formed(),
            dependable(*arith),
            dependable(*order),
        ensures
            final(self).well_formed(),
            final(self).tokens() == old(self).tokens(),
            agrees(r, add_expr(scope(vars, arith, order), old(self).tokens(), old(self).at()).0),
            final(self).at() == add_expr(
                scope(vars, arith, order),
                old(self).tokens(),
                old(self).at(),
            ).1,
            r is Ok ==> final(self).at() > old(self).at(),
        decreases old(self).tokens().len() - old(self).at(), 3nat,
    {
        let ghost sc = scope(vars, arith, order);
        let ghost t = self.tokens();
        let ghost p = self.at();
        let mut left = match self.mul_expr(vars, arith, order) {
            Ok(v) => v,
            Err(h) => return Err(h),
        };
        loop
            invariant
                self.well_formed(),
                self.tokens() == t,
                self.at() > p,
                0 <= p < t.len(),
                t == old(self).tokens(),
                p == old(self).at(),
                sc == scope(vars, arith, order),
                dependable(*arith),
                dependable(*order),
                add_expr(sc, t, p) == add_rest(sc, t, self.at(), left@),
            decreases t.len() - self.at(),
        {
            let op = match self.peek() {
                Token::Plus => ArithOp::Add,
                Token::Minus => ArithOp::Sub,
                _ => return Ok(left),
            };
            self.advance();
            let right = match self.mul_expr(vars, arith, order) {
                Ok(v) => v,
                Err(h) => return Err(h),
            };
            left = combine(arith, &left, op, &right);
        }
    }

    fn mul_expr<A, C>(&mut self, vars: &Vars, arith: &A, order: &C) -> (r: Result<Value, Halt>) where
        A: Fn(ArithOp, Num, Num) -> Num,
        C: Fn(CompareOp, Num, Num) -> bool,

        requires
            old(self).well_formed(),
            dependable(*arith),
            dependable(*order),
        ensures
            final(self).well_formed(),
            final(self).tokens() == old(self).tokens(),
            agrees(r, mul_expr(scope(vars, arith, order), old(self).tokens(), old(self).at()).0),
            final(self).at() == mul_expr(
                scope(vars, arith, order),
                old(self).tokens(),
                old(self).at(),
            ).1,
            r is Ok ==> final(self).at() > old(self).at(),
        decreases old(self).tokens().len() - old(self).at(), 2nat,
    {
        let ghost sc = scope(vars, arith, order);
        let ghost t = self.tokens();
        let ghost p = self.at();
        let mut left = match self.unary(vars, arith, order) {
            Ok(v) => v,
            Err(h) => return Err(h),
        };
        loop
            invariant
                self.well_formed(),
                self.tokens() == t,
                self.at() > p,
                0 <= p < t.len(),
                t == old(self).tokens(),
                p == old(self).at(),
                sc == scope(vars, arith, order),
                dependable(*arith),
                dependable(*order),
                mul_expr(sc, t, p) == mul_rest(sc, t, self.at(), left@),
            decreases t.len() - self.at(),
        {
            let op = match self.peek() {
                Token::Star => ArithOp::Mul,
                Token::Slash => ArithOp::Div,
                _ => return Ok(left),
            };
            self.advance();
            let right = match self.unary(vars, arith, order) {
                Ok(v) => v,
                Err(h) => return Err(h),
            };
            left = combine(arith, &left, op, &right);
        }
    }

    fn unary<A, C>(&mut self, vars: &Vars, arith: &A, order: &C) -> (r: Result<Value, Halt>) where
        A: Fn(ArithOp, Num, Num) -> Num,
        C: Fn(CompareOp, Num, Num) -> bool,

        requires
            old(self).well_formed(),
            dependable(*arith),
            dependable(*order),
        ensures
            final(self).well_formed(),
            final(self).tokens() == old(self).tokens(),
            agrees(r, unary(scope(vars, arith, order), old(self).tokens(), old(self).at()).0),
            final(self).at() == unary(
                scope(vars, arith, order),
                old(self).tokens(),
                old(self).at(),
            ).1,
            r is Ok ==> final(self).at() > old(self).at(),
        decreases old(self).tokens().len() - old(self).at(), 1nat,
    {
        let minus = match self.peek() {
            Token::Minus => true,
            _ => false,
        };
        if minus {
            self.advance();
            return match self.unary(vars, arith, order) {
                Ok(Value::Int(n)) => {
                    if n == i64::MIN {
                        Err(Halt::Overflow)
                    } else {
                        Ok(Value::Int(-n))
                    }
                },
                Ok(Value::Float(bits)) => Ok(Value::Float(flip_sign(bits))),
                Ok(_) => Err(Halt::Fault(copy_str("cannot negate non-numeric value"))),
                Err(h) => Err(h),
            };
        }
        self.primary(vars, arith, order)
    }

    fn primary<A, C>(&mut self, vars: &Vars, arith: &A, order: &C) -> (r: Result<Value, Halt>) where
        A: Fn(ArithOp, Num, Num) -> Num,
        C: Fn(CompareOp, Num, Num) -> bool,

        requires
            old(self).well_formed(),
            dependable(*arith),
            dependable(*order),
        ensures
            final(self).well_formed(),
            final(self).tokens() == old(self).tokens(),
            agrees(r, primary(scope(vars, arith, order), old(self).tokens(), old(self).at()).0),
            final(self).at() == primary(
                scope(vars, arith, order),
                old(self).tokens(),
                old(self).at(),
            ).1,
            r is Ok ==> final(self).at() > old(self).at(),
        decreases old(self).tokens().len() - old(self).at(), 0nat,
    {
        let leaf = match self.peek() {
            Token::Num(n) => Some(Ok(Value::Int(*n))),
            Token::Str(s) => Some(Ok(Value::Str(copy_str(s.as_str())))),
            Token::ReStr(p) => Some(Ok(Value::ReStr(p.duplicate()))),
            Token::Time(at) => Some(Ok(Value::DateTime(*at))),
            Token::Name(name) => Some(
                match vars.get(name.as_str()) {
                    Some(v) => Ok(v),
                    None => Err(Halt::Fault(concat2("undefined variable: ", name.as_str()))),
                },
            ),
            Token::LParen => None,
            _ => return Err(self.fault_here("unexpected token: ")),
        };
        self.advance();
        if let Some(r) = leaf {
            return r;
        }
        let v = match self.or_expr(vars, arith, order) {
            Ok(v) => v,
            Err(h) => return Err(h),
        };
        let closed = match self.peek() {
            Token::RParen => true,
            _ => false,
        };
        if !closed {
            let h = self.fault_here("expected ), got ");
            self.advance();
            return Err(h);
        }
        self.advance();
        Ok(v)
    }

    fn evaluate<A, C>(&mut self, vars: &Vars, arith: &A, order: &C) -> (r: Result<Value, Halt>) where
        A: Fn(ArithOp, Num, Num) -> Num,
        C: Fn(CompareOp, Num, Num) -> bool,

        requires
            old(self).well_formed(),
            dependable(*arith),
            dependable(*order),
        ensures
            final(self).well_formed(),
            final(self).tokens() == old(self).tokens(),
            agrees(r, expression(scope(vars, arith, order), old(self).tokens(), old(self).at()).0),
            final(self).at() == expression(
                scope(vars, arith, order),
                old(self).tokens(),
                old(self).at(),
            ).1,
    {
        let v = match self.or_expr(vars, arith, order) {
            Ok(v) => v,
            Err(h) => return Err(h),
        };
        let ended = match self.peek() {
            Token::Eof => true,
            _ => false,
        };
        if !ended {
            return Err(self.fault_here("unexpected token after expression: "));
        }
        Ok(v)
    }

    /// The value of the expression, or the text of the error. `arith` and `order` compute with
    /// and compare fractional numbers.
    pub fn parse<A, C>(&mut self, vars: &Vars, arith: &A, order: &C) -> (r: Result<Value, String>) where
        A: Fn(ArithOp, Num, Num) -> Num,
        C: Fn(CompareOp, Num, Num) -> bool,

        requires
            old(self).well_formed(),
            dependable(*arith),
            dependable(*order),
            !(expression(scope(vars, arith, order), old(self).tokens(), old(self).at()).0
                is Overflow),
        ensures
            final(self).well_formed(),
            final(self).tokens() == old(self).tokens(),
            final(self).at() == expression(
                scope(vars, arith, order),
                old(self).tokens(),
                old(self).at(),
            ).1,
            match expression(scope(vars, arith, order), old(self).tokens(), old(self).at()).0 {
                Outcome::Value(v) => r is Ok && r->Ok_0@ == v,
                Outcome::Fault(fault) => r is Err && r->Err_0@ == fault_text(fault),
                Outcome::Overflow => false,
            },
    {
        match self.evaluate(vars, arith, order) {
            Ok(v) => Ok(v),
            Err(Halt::Fault(text)) => Err(text),
            Err(Halt::Overflow) => {
                assert(false);
                Err(String::new())
            },
        }
    }

    /// As [`Parser::parse`], on any expression: `None` where the least 64-bit integer would have
    /// to be negated.
    pub fn try_parse<A, C>(&mut self, vars: &Vars, arith: &A, order: &C) -> (r: Option<
        Result<Value, String>,
    >) where A: Fn(ArithOp, Num, Num) -> Num, C: Fn(CompareOp, Num, Num) -> bool
        requires
            old(self).well_formed(),
            dependable(*arith),
            dependable(*order),
        ensures
            final(self).well_formed(),
            final(self).tokens() == old(self).tokens(),
            final(self).at() == expression(
                scope(vars, arith, order),
                old(self).tokens(),
                old(self).at(),
            ).1,
            match expression(scope(vars, arith, order), old(self).tokens(), old(self).at()).0 {
                Outcome::Value(v) => r matches Some(Ok(w)) && w@ == v,
                Outcome::Fault(fault) => r matches Some(Err(text)) && text@ == fault_text(fault),
                Outcome::Overflow => r is None,
            },
    {
        let start = self.pos;
        if let Err(Halt::Overflow) = self.evaluate(vars, arith, order) {
            return None;
        }
        self.pos = start;
        Some(self.parse(vars, arith, order))
    }
}

/// What an expression depends on, given the variables and the functions on fractional numbers.
pub open spec fn scope<A, C>(vars: &Vars, arith: &A, order: &C) -> Scope where
    A: Fn(ArithOp, Num, Num) -> Num,
    C: Fn(CompareOp, Num, Num) -> bool,
 {
    Scope { vars: vars@, arith: answers(*arith), compare: answers(*order) }
}

// ── laws ─────────────────────────────────────────────────────────────────

/// A variable holds what it was given last, and giving it a value leaves the others alone.
pub proof fn lemma_variables_keep_their_values(
    vars: &mut Vars,
    name: String,
    value: Value,
    other: Seq<char>,
)
    requires
        call_ensures(Vars::insert, (vars, name, value), ()),
        other != name@,
    ensures
        final(vars)@.contains_key(name@),
        final(vars)@[name@] == value@,
        final(vars)@.contains_key(other) <==> old(vars)@.contains_key(other),
        old(vars)@.contains_key(other) ==> final(vars)@[other] == old(vars)@[other],
{
}

/// A variable is found by its name, with the value that it holds; there are none to start with.
pub proof fn lemma_variables_are_found(vars: &Vars, name: &str, r: Option<Value>, fresh: Vars)
    requires
        call_ensures(Vars::get, (vars, name), r),
        call_ensures(Vars::new, (), fresh),
    ensures
        r is Some <==> vars@.contains_key(name@),
        r matches Some(v) ==> v@ == vars@[name@],
        !fresh@.contains_key(name@),
{
}

/// What evaluation gives is what the tokens from the position on evaluate to, under the variables
/// and the functions that are handed in; where they have no value, the error says why.
pub proof fn lemma_parsing_evaluates<A, C>(
    parser: &mut Parser,
    vars: &Vars,
    arith: &A,
    order: &C,
    r: Option<Result<Value, String>>,
) where A: Fn(ArithOp, Num, Num) -> Num, C: Fn(CompareOp, Num, Num) -> bool
    requires
        call_ensures(Parser::try_parse::<A, C>, (parser, vars, arith, order), r),
    ensures
        ({
            let sc = Scope { vars: vars@, arith: answers(*arith), compare: answers(*order) };
            match expression(sc, old(parser).tokens(), old(parser).at()).0 {
                Outcome::Value(v) => r is Some && r->0 is Ok && r->0->Ok_0@ == v,
                Outcome::Fault(fault) => r is Some && r->0 is Err && r->0->Err_0@ == fault_text(
                    fault,
                ),
                Outcome::Overflow => r is None,
            }
        }),
        final(parser).tokens() == old(parser).tokens(),
{
}

/// A parser starts at the first token of its text, where all numbers of the text fit in 64 bits.
pub proof fn lemma_parsers_start_at_the_start(input: &str, r: Option<Parser>)
    requires
        call_ensures(Parser::try_new, (input,), r),
    ensures
        r is Some <==> tokens_of(input@) is Some,
        r matches Some(p) ==> p.at() == 0 && Some(p.tokens()) == tokens_of(input@),
{
}

/// The error of a filter says what is wrong with it: the name that is not defined, what stands
/// where an operand was due, what follows where the filter was over, or what stands in place of a
/// closing parenthesis.
pub proof fn lemma_errors_say_what_is_wrong(name: Seq<char>, token: TokenView)
    ensures
        fault_text(FaultView::Undefined(name)) == "undefined variable: "@ + name,
        fault_text(FaultView::Unexpected(token)) == "unexpected token: "@ + token_text(token),
        fault_text(FaultView::Trailing(token)) == "unexpected token after expression: "@
            + token_text(token),
        fault_text(FaultView::Expected(token)) == "expected ), got "@ + token_text(token),
        fault_text(FaultView::NotNumeric) == "cannot negate non-numeric value"@,
{
}

/// Only numbers are negated: a fractional one gets the other sign, the least integer has no
/// opposite, and a text, a truth value and the rest are refused.
pub proof fn lemma_only_numbers_are_negated(v: ValueView)
    ensures
        match v {
            ValueView::Int(n) => if n == -0x8000_0000_0000_0000 {
                negated(Outcome::Value(v)) is Overflow
            } else {
                negated(Outcome::Value(v)) == Outcome::Value(ValueView::Int((-n) as i64))
            },
            ValueView::Float(bits) => negated(Outcome::Value(v)) == Outcome::Value(
                ValueView::Float(flipped_sign(bits)),
            ),
            _ => negated(Outcome::Value(v)) == Outcome::Fault(FaultView::NotNumeric),
        },
{
}

/// A token is shown in an error by its name, with its content in brackets where it has any.
pub proof fn lemma_tokens_are_shown_by_name(n: i64, text: Seq<char>)
    ensures
        token_text(TokenView::Num(n)) == "Num("@ + signed_decimal(n as int) + ")"@,
        token_text(TokenView::Str(text)) == "Str("@ + debug_text(text) + ")"@,
        token_text(TokenView::Name(text)) == "Name("@ + debug_text(text) + ")"@,
        token_text(TokenView::ReStr(text)) == "ReStr(Regex("@ + debug_text(text) + "))"@,
        token_text(TokenView::And) == "And"@ && token_text(TokenView::Or) == "Or"@,
        token_text(TokenView::Plus) == "Plus"@ && token_text(TokenView::Minus) == "Minus"@,
        token_text(TokenView::Star) == "Star"@ && token_text(TokenView::Slash) == "Slash"@,
        token_text(TokenView::LParen) == "LParen"@ && token_text(TokenView::RParen) == "RParen"@,
        token_text(TokenView::Eof) == "Eof"@,
        token_text(TokenView::Compare(CompareOp::Eq)) == "Eq"@,
        token_text(TokenView::Compare(CompareOp::Ne)) == "Ne"@,
        token_text(TokenView::Compare(CompareOp::Gt)) == "Gt"@,
        token_text(TokenView::Compare(CompareOp::Lt)) == "Lt"@,
        token_text(TokenView::Compare(CompareOp::Ge)) == "Ge"@,
        token_text(TokenView::Compare(CompareOp::Le)) == "Le"@,
{
}

} // verus!
