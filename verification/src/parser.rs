//! The syntax tree of the structured language, and the recursive-descent
//! parser that builds it from a token sequence.
//!
//! Grammar:
//! - a program is a sequence of statements followed by end-of-input;
//! - statement: `if`, `while`, assignment, move, `input`, `output`;
//! - `if Bool { statements }` with an optional `else { statements }`;
//! - `while Bool { statements }`;
//! - Bool: one or more comparisons joined by `&&`;
//! - comparison: a variable compared to a number with `==` or `!=`.

use crate::scanner::{tokens_view, Token, TokenStream, TokenView};
use crate::text::{parse_u8_spec, parse_u8_str, str_eq};
use crate::CompileError;
use vstd::prelude::*;

verus! {

/// A parsed variable name: an identifier that is not a reserved word.
#[derive(Debug, PartialEq, Eq, Clone)]
pub struct Variable(pub String);

impl View for Variable {
    type V = Seq<char>;

    open spec fn view(&self) -> Seq<char> {
        self.0@
    }
}

/// A parsed 8-bit literal.
#[derive(Debug, PartialEq, Eq, Clone, Copy)]
pub struct Num(pub u8);

impl View for Num {
    type V = u8;

    open spec fn view(&self) -> u8 {
        self.0
    }
}

/// The direction of a tape-pointer move statement.
#[derive(Debug, PartialEq, Eq, Clone, Copy)]
pub enum Direction {
    Left,
    Right,
}

/// One comparison of a variable against a literal.
#[derive(Debug, PartialEq, Eq, Clone)]
pub enum Compare {
    EQ(Variable, Num),
    NE(Variable, Num),
}

/// The mathematical shape of a comparison.
pub enum CmpV {
    Eq(Seq<char>, u8),
    Ne(Seq<char>, u8),
}

impl View for Compare {
    type V = CmpV;

    open spec fn view(&self) -> CmpV {
        match self {
            Compare::EQ(v, n) => CmpV::Eq(v@, n@),
            Compare::NE(v, n) => CmpV::Ne(v@, n@),
        }
    }
}

/// The views of a comparison list.
pub open spec fn cmps_view(cs: Seq<Compare>) -> Seq<CmpV> {
    cs.map_values(|c: Compare| c@)
}

/// A condition: comparisons combined with logical AND, left to right.
#[derive(Debug, PartialEq, Eq, Clone)]
pub struct Bool {
    pub compares: Vec<Compare>,
}

impl View for Bool {
    type V = Seq<CmpV>;

    open spec fn view(&self) -> Seq<CmpV> {
        cmps_view(self.compares@)
    }
}

impl Bool {
    pub fn compares(&self) -> (r: &Vec<Compare>)
        ensures
            cmps_view(r@) == self@,
    {
        &self.compares
    }
}

/// One statement of the structured language.
#[derive(Debug, PartialEq, Eq)]
pub enum Statement {
    IF(Bool, Function, Option<Function>),
    WHILE(Bool, Function),
    Assign(Variable, Num),
    Move(Direction),
    Input(Variable),
    Output(Variable),
}

/// An ordered sequence of statements: a block body or a whole program.
#[derive(Debug, PartialEq, Eq)]
pub struct Function(pub Vec<Statement>);

/// The mathematical shape of a statement.
pub enum StmtV {
    If(Seq<CmpV>, Seq<StmtV>, Option<Seq<StmtV>>),
    While(Seq<CmpV>, Seq<StmtV>),
    Assign(Seq<char>, u8),
    Move(Direction),
    Input(Seq<char>),
    Output(Seq<char>),
}

pub open spec fn stmt_view(s: Statement) -> StmtV
    decreases s,
{
    match s {
        Statement::IF(b, f, e) => StmtV::If(
            b@,
            stmts_view(f.0@),
            match e {
                Some(fe) => Some(stmts_view(fe.0@)),
                None => None,
            },
        ),
        Statement::WHILE(b, f) => StmtV::While(b@, stmts_view(f.0@)),
        Statement::Assign(v, n) => StmtV::Assign(v@, n@),
        Statement::Move(d) => StmtV::Move(d),
        Statement::Input(v) => StmtV::Input(v@),
        Statement::Output(v) => StmtV::Output(v@),
    }
}

pub open spec fn stmts_view(ss: Seq<Statement>) -> Seq<StmtV>
    decreases ss,
{
    if ss.len() == 0 {
        Seq::empty()
    } else {
        stmts_view(ss.drop_last()).push(stmt_view(ss.last()))
    }
}

impl View for Statement {
    type V = StmtV;

    open spec fn view(&self) -> StmtV {
        stmt_view(*self)
    }
}

impl View for Function {
    type V = Seq<StmtV>;

    open spec fn view(&self) -> Seq<StmtV> {
        stmts_view(self.0@)
    }
}

impl Function {
    pub fn statements(&self) -> (r: &Vec<Statement>)
        ensures
            stmts_view(r@) == self@,
    {
        &self.0
    }
}

/// A whole parsed program.
#[derive(Debug, PartialEq, Eq)]
pub struct AST {
    function: Function,
}

impl View for AST {
    type V = Seq<StmtV>;

    closed spec fn view(&self) -> Seq<StmtV> {
        self.function@
    }
}

impl AST {
    pub fn statements(&self) -> (r: &Vec<Statement>)
        ensures
            stmts_view(r@) == self@,
    {
        &self.function.0
    }
}


/// The keywords of the language, as character sequences.
pub open spec fn kw_if() -> Seq<char> {
    seq!['i', 'f']
}

pub open spec fn kw_else() -> Seq<char> {
    seq!['e', 'l', 's', 'e']
}

pub open spec fn kw_while() -> Seq<char> {
    seq!['w', 'h', 'i', 'l', 'e']
}

pub open spec fn kw_next_cell() -> Seq<char> {
    seq!['n', 'e', 'x', 't', '_', 'c', 'e', 'l', 'l']
}

pub open spec fn kw_prev_cell() -> Seq<char> {
    seq!['p', 'r', 'e', 'v', '_', 'c', 'e', 'l', 'l']
}

pub open spec fn kw_input() -> Seq<char> {
    seq!['i', 'n', 'p', 'u', 't']
}

pub open spec fn kw_output() -> Seq<char> {
    seq!['o', 'u', 't', 'p', 'u', 't']
}

pub open spec fn kw_move_right() -> Seq<char> {
    seq!['m', 'o', 'v', 'e', '_', 'r', 'i', 'g', 'h', 't']
}

pub open spec fn kw_move_left() -> Seq<char> {
    seq!['m', 'o', 'v', 'e', '_', 'l', 'e', 'f', 't']
}

/// The reserved words: no variable may be named like one of them.
pub open spec fn reserved_words() -> Seq<Seq<char>> {
    seq![
        kw_if(),
        kw_else(),
        kw_while(),
        kw_next_cell(),
        kw_prev_cell(),
        kw_input(),
        kw_output(),
    ]
}

/// What a single token yields as a variable: its name, unless it is no
/// identifier or is reserved.
pub open spec fn sp_variable(t: TokenView) -> Option<Seq<char>> {
    match t {
        TokenView::Id(s) => if reserved_words().contains(s) {
            None
        } else {
            Some(s)
        },
        _ => None,
    }
}

/// What a single token yields as a literal: its digits' value, unless it is
/// no number token or the value does not fit 8 bits.
pub open spec fn sp_num(t: TokenView) -> Option<u8> {
    match t {
        TokenView::Num(s) => parse_u8_spec(s),
        _ => None,
    }
}

/// What a single token yields as a move direction.
pub open spec fn sp_direction(t: TokenView) -> Option<Direction> {
    match t {
        TokenView::Id(s) => if s == kw_move_right() {
            Some(Direction::Right)
        } else if s == kw_move_left() {
            Some(Direction::Left)
        } else {
            None
        },
        _ => None,
    }
}

/// What the three tokens at `p` yield as a comparison.
pub open spec fn sp_compare(ts: Seq<TokenView>, p: int) -> Option<CmpV> {
    if 0 <= p && p + 3 <= ts.len() {
        match (sp_variable(ts[p]), sp_num(ts[p + 2])) {
            (Some(v), Some(n)) => match ts[p + 1] {
                TokenView::Equal => Some(CmpV::Eq(v, n)),
                TokenView::NotEqual => Some(CmpV::Ne(v, n)),
                _ => None,
            },
            _ => None,
        }
    } else {
        None
    }
}

/// The comparisons of the `&& comparison` groups from `p` on, as many as
/// match.
pub open spec fn sp_bool_more(ts: Seq<TokenView>, p: int) -> Seq<CmpV>
    decreases ts.len() - p,
{
    if 0 <= p && p + 4 <= ts.len() && ts[p] == TokenView::And && sp_compare(ts, p + 1) is Some {
        match sp_compare(ts, p + 1) {
            Some(c) => seq![c] + sp_bool_more(ts, p + 4),
            None => Seq::empty(),
        }
    } else {
        Seq::empty()
    }
}

/// What the tokens at `p` yield as a condition: a first comparison and then
/// as many `&& comparison` groups as match, with the position after them.
pub open spec fn sp_bool(ts: Seq<TokenView>, p: int) -> Option<(Seq<CmpV>, int)> {
    match sp_compare(ts, p) {
        Some(c) => {
            let more = sp_bool_more(ts, p + 3);
            Some((seq![c] + more, p + 3 + 4 * more.len()))
        },
        None => None,
    }
}

pub open spec fn sp_input(ts: Seq<TokenView>, p: int) -> Option<(StmtV, int)> {
    if 0 <= p && p + 4 <= ts.len() && ts[p] == TokenView::Id(kw_input()) && ts[p + 1]
        == TokenView::LParen && ts[p + 3] == TokenView::RParen {
        match sp_variable(ts[p + 2]) {
            Some(v) => Some((StmtV::Input(v), p + 4)),
            None => None,
        }
    } else {
        None
    }
}

pub open spec fn sp_output(ts: Seq<TokenView>, p: int) -> Option<(StmtV, int)> {
    if 0 <= p && p + 4 <= ts.len() && ts[p] == TokenView::Id(kw_output()) && ts[p + 1]
        == TokenView::LParen && ts[p + 3] == TokenView::RParen {
        match sp_variable(ts[p + 2]) {
            Some(v) => Some((StmtV::Output(v), p + 4)),
            None => None,
        }
    } else {
        None
    }
}

pub open spec fn sp_move(ts: Seq<TokenView>, p: int) -> Option<(StmtV, int)> {
    if 0 <= p && p < ts.len() {
        match sp_direction(ts[p]) {
            Some(d) => Some((StmtV::Move(d), p + 1)),
            None => None,
        }
    } else {
        None
    }
}

pub open spec fn sp_assign(ts: Seq<TokenView>, p: int) -> Option<(StmtV, int)> {
    if 0 <= p && p + 3 <= ts.len() && ts[p + 1] == TokenView::Assign {
        match (sp_variable(ts[p]), sp_num(ts[p + 2])) {
            (Some(v), Some(n)) => Some((StmtV::Assign(v, n), p + 3)),
            _ => None,
        }
    } else {
        None
    }
}

/// What the tokens at `p` yield as a while statement: the `while` keyword,
/// a condition, and a braced body.
pub open spec fn sp_while(ts: Seq<TokenView>, p: int) -> Option<(StmtV, int)>
    decreases ts.len() - p, 0int,
{
    if 0 <= p && ts.len() - p >= 6 && ts[p] == TokenView::Id(kw_while()) {
        match sp_bool(ts, p + 1) {
            Some((cs, p2)) => if p + 1 < p2 && p2 < ts.len() && ts[p2] == TokenView::LBrace {
                let (body, p3) = sp_function(ts, p2 + 1);
                if p3 < ts.len() && ts[p3] == TokenView::RBrace {
                    Some((StmtV::While(cs, body), p3 + 1))
                } else {
                    None
                }
            } else {
                None
            },
            None => None,
        }
    } else {
        None
    }
}

/// What the tokens at `p` yield as an if statement without its else part.
pub open spec fn sp_if(ts: Seq<TokenView>, p: int) -> Option<((Seq<CmpV>, Seq<StmtV>), int)>
    decreases ts.len() - p, 0int,
{
    if 0 <= p && ts.len() - p >= 6 && ts[p] == TokenView::Id(kw_if()) {
        match sp_bool(ts, p + 1) {
            Some((cs, p2)) => if p + 1 < p2 && p2 < ts.len() && ts[p2] == TokenView::LBrace {
                let (body, p3) = sp_function(ts, p2 + 1);
                if p3 < ts.len() && ts[p3] == TokenView::RBrace {
                    Some(((cs, body), p3 + 1))
                } else {
                    None
                }
            } else {
                None
            },
            None => None,
        }
    } else {
        None
    }
}

/// What the tokens at `p` yield as an else part: the `else` keyword and a
/// braced body.
pub open spec fn sp_else(ts: Seq<TokenView>, p: int) -> Option<(Seq<StmtV>, int)>
    decreases ts.len() - p, 0int,
{
    if 0 <= p && ts.len() - p >= 2 && ts[p] == TokenView::Id(kw_else()) && ts[p + 1]
        == TokenView::LBrace {
        let (body, p2) = sp_function(ts, p + 2);
        if p2 < ts.len() && ts[p2] == TokenView::RBrace {
            Some((body, p2 + 1))
        } else {
            None
        }
    } else {
        None
    }
}

/// What the tokens at `p` yield as an if statement, greedily taking an else
/// part when one follows.
pub open spec fn sp_if_else(ts: Seq<TokenView>, p: int) -> Option<(StmtV, int)>
    decreases ts.len() - p, 1int,
{
    match sp_if(ts, p) {
        Some(((cs, tb), p4)) => if p < p4 && p4 <= ts.len() {
            match sp_else(ts, p4) {
                Some((eb, p5)) => Some((StmtV::If(cs, tb, Some(eb)), p5)),
                None => Some((StmtV::If(cs, tb, None), p4)),
            }
        } else {
            Some((StmtV::If(cs, tb, None), p4))
        },
        None => None,
    }
}

/// What the tokens at `p` yield as a statement: the first match among
/// input, output, move, assignment, while and if.
pub open spec fn sp_statement(ts: Seq<TokenView>, p: int) -> Option<(StmtV, int)>
    decreases ts.len() - p, 2int,
{
    if sp_input(ts, p) is Some {
        sp_input(ts, p)
    } else if sp_output(ts, p) is Some {
        sp_output(ts, p)
    } else if sp_move(ts, p) is Some {
        sp_move(ts, p)
    } else if sp_assign(ts, p) is Some {
        sp_assign(ts, p)
    } else if sp_while(ts, p) is Some {
        sp_while(ts, p)
    } else {
        sp_if_else(ts, p)
    }
}

/// What the tokens at `p` yield as a statement sequence: statements parsed
/// greedily until none matches, with the position after them. This never
/// fails; an empty sequence is a valid body.
pub open spec fn sp_function(ts: Seq<TokenView>, p: int) -> (Seq<StmtV>, int)
    decreases ts.len() - p, 3int,
{
    match sp_statement(ts, p) {
        Some((s, p2)) => if p < p2 <= ts.len() {
            let (rest, p3) = sp_function(ts, p2);
            (seq![s] + rest, p3)
        } else {
            (seq![s], p2)
        },
        None => (Seq::empty(), p),
    }
}

/// What a whole token sequence yields as a program: its statements, with
/// the end-of-input marker directly after them; anything else is a parse
/// error.
pub open spec fn sp_program(ts: Seq<TokenView>) -> Result<Seq<StmtV>, CompileError> {
    let (ss, p) = sp_function(ts, 0);
    if p < ts.len() && ts[p] == TokenView::Eof {
        Ok(ss)
    } else {
        Err(CompileError::ParseError(p as usize))
    }
}



fn is_reserved_word(s: &str) -> (r: bool)
    ensures
        r == reserved_words().contains(s@),
{
    proof {
        reveal_strlit("if");
        reveal_strlit("else");
        reveal_strlit("while");
        reveal_strlit("next_cell");
        reveal_strlit("prev_cell");
        reveal_strlit("input");
        reveal_strlit("output");
        assert("if"@ =~= kw_if());
        assert("else"@ =~= kw_else());
        assert("while"@ =~= kw_while());
        assert("next_cell"@ =~= kw_next_cell());
        assert("prev_cell"@ =~= kw_prev_cell());
        assert("input"@ =~= kw_input());
        assert("output"@ =~= kw_output());
    }
    if str_eq(s, "if") {
        assert(reserved_words()[0] == s@);
        return true;
    }
    if str_eq(s, "else") {
        assert(reserved_words()[1] == s@);
        return true;
    }
    if str_eq(s, "while") {
        assert(reserved_words()[2] == s@);
        return true;
    }
    if str_eq(s, "next_cell") {
        assert(reserved_words()[3] == s@);
        return true;
    }
    if str_eq(s, "prev_cell") {
        assert(reserved_words()[4] == s@);
        return true;
    }
    if str_eq(s, "input") {
        assert(reserved_words()[5] == s@);
        return true;
    }
    if str_eq(s, "output") {
        assert(reserved_words()[6] == s@);
        return true;
    }
    proof {
        assert forall|j: int| 0 <= j < reserved_words().len() implies reserved_words()[j]
            != s@ by {
            if j == 0 {
                assert(reserved_words()[j] == kw_if());
            } else if j == 1 {
                assert(reserved_words()[j] == kw_else());
            } else if j == 2 {
                assert(reserved_words()[j] == kw_while());
            } else if j == 3 {
                assert(reserved_words()[j] == kw_next_cell());
            } else if j == 4 {
                assert(reserved_words()[j] == kw_prev_cell());
            } else if j == 5 {
                assert(reserved_words()[j] == kw_input());
            } else {
                assert(reserved_words()[j] == kw_output());
            }
        }
    }
    false
}

impl Variable {
    /// Reads one token as a variable: an identifier that is not reserved.
    pub fn from_token(t: &Token) -> (r: Result<Variable, CompileError>)
        ensures
            r matches Ok(v) ==> sp_variable(t@) == Some(v@),
            r matches Err(e) ==> sp_variable(t@) is None && e == CompileError::ParseError(0),
    {
        match t {
            Token::ID(s) => {
                if is_reserved_word(s.as_str()) {
                    Err(CompileError::ParseError(0))
                } else {
                    Ok(Variable(s.clone()))
                }
            },
            _ => Err(CompileError::ParseError(0)),
        }
    }
}

impl Num {
    /// Reads one token as an 8-bit literal.
    pub fn from_token(t: &Token) -> (r: Result<Num, CompileError>)
        ensures
            r matches Ok(n) ==> sp_num(t@) == Some(n@),
            r matches Err(e) ==> sp_num(t@) is None && e == CompileError::ParseError(0),
    {
        match t {
            Token::NUM(s) => match parse_u8_str(s.as_str()) {
                Some(v) => Ok(Num(v)),
                None => Err(CompileError::ParseError(0)),
            },
            _ => Err(CompileError::ParseError(0)),
        }
    }
}

impl Direction {
    /// Reads one token as a move direction.
    pub fn from_token(t: &Token) -> (r: Result<Direction, CompileError>)
        ensures
            r matches Ok(d) ==> sp_direction(t@) == Some(d),
            r matches Err(e) ==> sp_direction(t@) is None && e == CompileError::ParseError(0),
    {
        proof {
            reveal_strlit("move_right");
            reveal_strlit("move_left");
            assert("move_right"@ =~= kw_move_right());
            assert("move_left"@ =~= kw_move_left());
        }
        match t {
            Token::ID(s) => {
                if str_eq(s.as_str(), "move_right") {
                    Ok(Direction::Right)
                } else if str_eq(s.as_str(), "move_left") {
                    Ok(Direction::Left)
                } else {
                    Err(CompileError::ParseError(0))
                }
            },
            _ => Err(CompileError::ParseError(0)),
        }
    }
}

fn parse_compare(ts: &Vec<Token>, p: usize) -> (r: Option<Compare>)
    requires
        p <= ts@.len(),
    ensures
        r matches Some(c) ==> sp_compare(tokens_view(ts@), p as int) == Some(c@),
        r is None ==> sp_compare(tokens_view(ts@), p as int) is None,
{
    let ghost tv = tokens_view(ts@);
    if ts.len() - p < 3 {
        return None;
    }
    proof {
        assert(tv[p as int] == ts@[p as int]@);
        assert(tv[p as int + 1] == ts@[p as int + 1]@);
        assert(tv[p as int + 2] == ts@[p as int + 2]@);
    }
    let v = match Variable::from_token(&ts[p]) {
        Ok(v) => v,
        Err(_) => {
            return None;
        },
    };
    let n = match Num::from_token(&ts[p + 2]) {
        Ok(n) => n,
        Err(_) => {
            return None;
        },
    };
    match &ts[p + 1] {
        Token::EQ => Some(Compare::EQ(v, n)),
        Token::NE => Some(Compare::NE(v, n)),
        _ => None,
    }
}

impl Compare {
    /// Reads the tokens' start as a comparison: variable, `==` or `!=`,
    /// number.
    pub fn try_parse(ts: &Vec<Token>) -> (r: Result<Compare, CompileError>)
        ensures
            r matches Ok(c) ==> sp_compare(tokens_view(ts@), 0) == Some(c@),
            r matches Err(e) ==> sp_compare(tokens_view(ts@), 0) is None && e
                == CompileError::ParseError(0),
    {
        match parse_compare(ts, 0) {
            Some(c) => Ok(c),
            None => Err(CompileError::ParseError(0)),
        }
    }
}

fn parse_bool(ts: &Vec<Token>, p: usize) -> (r: Option<(Bool, usize)>)
    requires
        p <= ts@.len(),
    ensures
        r matches Some(x) ==> sp_bool(tokens_view(ts@), p as int) == Some((x.0@, x.1 as int)) && p
            < x.1 <= ts@.len(),
        r is None ==> sp_bool(tokens_view(ts@), p as int) is None,
{
    let ghost tv = tokens_view(ts@);
    let first = match parse_compare(ts, p) {
        Some(c) => c,
        None => {
            return None;
        },
    };
    let ghost firstv = first@;
    let n = ts.len();
    proof {
        assert(n == ts@.len());
        assert(p + 3 <= tv.len());
    }
    let mut compares = vec![first];
    let mut q = p + 3;
    let mut done = false;
    proof {
        assert(cmps_view(compares@) =~= seq![firstv]);
        assert(cmps_view(compares@).drop_first() =~= Seq::<CmpV>::empty());
        assert(sp_bool_more(tv, (p + 3) as int) =~= cmps_view(compares@).drop_first()
            + sp_bool_more(tv, q as int));
    }
    while !done
        invariant
            tv == tokens_view(ts@),
            p + 3 <= q <= ts@.len(),
            compares@.len() >= 1,
            q == p + 3 + 4 * (compares@.len() - 1),
            cmps_view(compares@)[0] == firstv,
            sp_bool_more(tv, (p + 3) as int) == cmps_view(compares@).drop_first() + sp_bool_more(
                tv,
                q as int,
            ),
            done ==> sp_bool_more(tv, q as int) == Seq::<CmpV>::empty(),
        decreases ts@.len() - q, (if done {
            0int
        } else {
            1int
        }),
    {
        if ts.len() - q < 4 {
            done = true;
            proof {
                assert(sp_bool_more(tv, q as int) =~= Seq::<CmpV>::empty());
            }
        } else {
            let is_and = match &ts[q] {
                Token::AND => true,
                _ => false,
            };
            proof {
                assert(tv[q as int] == ts@[q as int]@);
            }
            if !is_and {
                done = true;
                proof {
                    assert(sp_bool_more(tv, q as int) =~= Seq::<CmpV>::empty());
                }
            } else {
                match parse_compare(ts, q + 1) {
                    Some(c) => {
                        let ghost cv = c@;
                        let ghost old_compares = compares@;
                        compares.push(c);
                        q = q + 4;
                        proof {
                            assert(cmps_view(compares@) =~= cmps_view(old_compares).push(cv));
                            assert(cmps_view(compares@).drop_first() =~= cmps_view(
                                old_compares,
                            ).drop_first().push(cv));
                            assert(sp_bool_more(tv, (q - 4) as int) == seq![cv] + sp_bool_more(
                                tv,
                                q as int,
                            ));
                            assert(cmps_view(old_compares).drop_first() + (seq![cv]
                                + sp_bool_more(tv, q as int)) =~= cmps_view(
                                compares@,
                            ).drop_first() + sp_bool_more(tv, q as int));
                        }
                    },
                    None => {
                        done = true;
                        proof {
                            assert(sp_bool_more(tv, q as int) =~= Seq::<CmpV>::empty());
                        }
                    },
                }
            }
        }
    }
    proof {
        assert(sp_bool_more(tv, (p + 3) as int) =~= cmps_view(compares@).drop_first());
        assert(seq![firstv] + cmps_view(compares@).drop_first() =~= cmps_view(compares@));
    }
    Some((Bool { compares }, q))
}

impl Bool {
    /// Reads the tokens' start as a condition.
    pub fn try_parse(ts: &Vec<Token>) -> (r: Result<Bool, CompileError>)
        ensures
            r matches Ok(b) ==> (match sp_bool(tokens_view(ts@), 0) {
                Some(x) => x.0 == b@,
                None => false,
            }),
            r matches Err(e) ==> sp_bool(tokens_view(ts@), 0) is None && e
                == CompileError::ParseError(0),
    {
        match parse_bool(ts, 0) {
            Some((b, _)) => Ok(b),
            None => Err(CompileError::ParseError(0)),
        }
    }
}

fn parse_input(ts: &Vec<Token>, p: usize) -> (r: Option<(Statement, usize)>)
    requires
        p <= ts@.len(),
    ensures
        r matches Some(x) ==> sp_input(tokens_view(ts@), p as int) == Some((x.0@, x.1 as int)) && p
            < x.1 <= ts@.len(),
        r is None ==> sp_input(tokens_view(ts@), p as int) is None,
{
    let ghost tv = tokens_view(ts@);
    if ts.len() - p < 4 {
        return None;
    }
    proof {
        assert(tv[p as int] == ts@[p as int]@);
        assert(tv[p as int + 1] == ts@[p as int + 1]@);
        assert(tv[p as int + 2] == ts@[p as int + 2]@);
        assert(tv[p as int + 3] == ts@[p as int + 3]@);
        reveal_strlit("input");
        assert("input"@ =~= kw_input());
    }
    match &ts[p] {
        Token::ID(s) => {
            if !str_eq(s.as_str(), "input") {
                return None;
            }
        },
        _ => {
            return None;
        },
    }
    match &ts[p + 1] {
        Token::LP => {},
        _ => {
            return None;
        },
    }
    match &ts[p + 3] {
        Token::RP => {},
        _ => {
            return None;
        },
    }
    match Variable::from_token(&ts[p + 2]) {
        Ok(v) => Some((Statement::Input(v), p + 4)),
        Err(_) => None,
    }
}

fn parse_output(ts: &Vec<Token>, p: usize) -> (r: Option<(Statement, usize)>)
    requires
        p <= ts@.len(),
    ensures
        r matches Some(x) ==> sp_output(tokens_view(ts@), p as int) == Some((x.0@, x.1 as int)) && p
            < x.1 <= ts@.len(),
        r is None ==> sp_output(tokens_view(ts@), p as int) is None,
{
    let ghost tv = tokens_view(ts@);
    if ts.len() - p < 4 {
        return None;
    }
    proof {
        assert(tv[p as int] == ts@[p as int]@);
        assert(tv[p as int + 1] == ts@[p as int + 1]@);
        assert(tv[p as int + 2] == ts@[p as int + 2]@);
        assert(tv[p as int + 3] == ts@[p as int + 3]@);
        reveal_strlit("output");
        assert("output"@ =~= kw_output());
    }
    match &ts[p] {
        Token::ID(s) => {
            if !str_eq(s.as_str(), "output") {
                return None;
            }
        },
        _ => {
            return None;
        },
    }
    match &ts[p + 1] {
        Token::LP => {},
        _ => {
            return None;
        },
    }
    match &ts[p + 3] {
        Token::RP => {},
        _ => {
            return None;
        },
    }
    match Variable::from_token(&ts[p + 2]) {
        Ok(v) => Some((Statement::Output(v), p + 4)),
        Err(_) => None,
    }
}

fn parse_move(ts: &Vec<Token>, p: usize) -> (r: Option<(Statement, usize)>)
    requires
        p <= ts@.len(),
    ensures
        r matches Some(x) ==> sp_move(tokens_view(ts@), p as int) == Some((x.0@, x.1 as int)) && p
            < x.1 <= ts@.len(),
        r is None ==> sp_move(tokens_view(ts@), p as int) is None,
{
    let ghost tv = tokens_view(ts@);
    if p == ts.len() {
        return None;
    }
    proof {
        assert(tv[p as int] == ts@[p as int]@);
    }
    match Direction::from_token(&ts[p]) {
        Ok(d) => Some((Statement::Move(d), p + 1)),
        Err(_) => None,
    }
}

fn parse_assign(ts: &Vec<Token>, p: usize) -> (r: Option<(Statement, usize)>)
    requires
        p <= ts@.len(),
    ensures
        r matches Some(x) ==> sp_assign(tokens_view(ts@), p as int) == Some((x.0@, x.1 as int)) && p
            < x.1 <= ts@.len(),
        r is None ==> sp_assign(tokens_view(ts@), p as int) is None,
{
    let ghost tv = tokens_view(ts@);
    if ts.len() - p < 3 {
        return None;
    }
    proof {
        assert(tv[p as int] == ts@[p as int]@);
        assert(tv[p as int + 1] == ts@[p as int + 1]@);
        assert(tv[p as int + 2] == ts@[p as int + 2]@);
    }
    match &ts[p + 1] {
        Token::ASSIGN => {},
        _ => {
            return None;
        },
    }
    let v = match Variable::from_token(&ts[p]) {
        Ok(v) => v,
        Err(_) => {
            return None;
        },
    };
    match Num::from_token(&ts[p + 2]) {
        Ok(n) => Some((Statement::Assign(v, n), p + 3)),
        Err(_) => None,
    }
}

fn parse_while(ts: &Vec<Token>, p: usize) -> (r: Option<(Statement, usize)>)
    requires
        p <= ts@.len(),
    ensures
        r matches Some(x) ==> sp_while(tokens_view(ts@), p as int) == Some((x.0@, x.1 as int)) && p
            < x.1 <= ts@.len(),
        r is None ==> sp_while(tokens_view(ts@), p as int) is None,
    decreases ts@.len() - p, 0int,
{
    let ghost tv = tokens_view(ts@);
    if ts.len() - p < 6 {
        return None;
    }
    proof {
        assert(tv[p as int] == ts@[p as int]@);
        reveal_strlit("while");
        assert("while"@ =~= kw_while());
    }
    match &ts[p] {
        Token::ID(s) => {
            if !str_eq(s.as_str(), "while") {
                return None;
            }
        },
        _ => {
            return None;
        },
    }
    let (bool_node, p2) = match parse_bool(ts, p + 1) {
        Some(x) => x,
        None => {
            return None;
        },
    };
    if p2 == ts.len() {
        return None;
    }
    proof {
        assert(tv[p2 as int] == ts@[p2 as int]@);
    }
    match &ts[p2] {
        Token::LB => {},
        _ => {
            return None;
        },
    }
    let (body, p3) = parse_function(ts, p2 + 1);
    if p3 == ts.len() {
        return None;
    }
    proof {
        assert(tv[p3 as int] == ts@[p3 as int]@);
    }
    match &ts[p3] {
        Token::RB => {},
        _ => {
            return None;
        },
    }
    Some((Statement::WHILE(bool_node, body), p3 + 1))
}

fn parse_if(ts: &Vec<Token>, p: usize) -> (r: Option<((Bool, Function), usize)>)
    requires
        p <= ts@.len(),
    ensures
        r matches Some(x) ==> sp_if(tokens_view(ts@), p as int) == Some((((x.0).0@, (x.0).1@),
        x.1 as int)) && p < x.1 <= ts@.len(),
        r is None ==> sp_if(tokens_view(ts@), p as int) is None,
    decreases ts@.len() - p, 0int,
{
    let ghost tv = tokens_view(ts@);
    if ts.len() - p < 6 {
        return None;
    }
    proof {
        assert(tv[p as int] == ts@[p as int]@);
        reveal_strlit("if");
        assert("if"@ =~= kw_if());
    }
    match &ts[p] {
        Token::ID(s) => {
            if !str_eq(s.as_str(), "if") {
                return None;
            }
        },
        _ => {
            return None;
        },
    }
    let (bool_node, p2) = match parse_bool(ts, p + 1) {
        Some(x) => x,
        None => {
            return None;
        },
    };
    if p2 == ts.len() {
        return None;
    }
    proof {
        assert(tv[p2 as int] == ts@[p2 as int]@);
    }
    match &ts[p2] {
        Token::LB => {},
        _ => {
            return None;
        },
    }
    let (body, p3) = parse_function(ts, p2 + 1);
    if p3 == ts.len() {
        return None;
    }
    proof {
        assert(tv[p3 as int] == ts@[p3 as int]@);
    }
    match &ts[p3] {
        Token::RB => {},
        _ => {
            return None;
        },
    }
    Some(((bool_node, body), p3 + 1))
}

fn parse_else(ts: &Vec<Token>, p: usize) -> (r: Option<(Function, usize)>)
    requires
        p <= ts@.len(),
    ensures
        r matches Some(x) ==> sp_else(tokens_view(ts@), p as int) == Some((x.0@, x.1 as int)) && p
            < x.1 <= ts@.len(),
        r is None ==> sp_else(tokens_view(ts@), p as int) is None,
    decreases ts@.len() - p, 0int,
{
    let ghost tv = tokens_view(ts@);
    if ts.len() - p < 2 {
        return None;
    }
    proof {
        assert(tv[p as int] == ts@[p as int]@);
        assert(tv[p as int + 1] == ts@[p as int + 1]@);
        reveal_strlit("else");
        assert("else"@ =~= kw_else());
    }
    match &ts[p] {
        Token::ID(s) => {
            if !str_eq(s.as_str(), "else") {
                return None;
            }
        },
        _ => {
            return None;
        },
    }
    match &ts[p + 1] {
        Token::LB => {},
        _ => {
            return None;
        },
    }
    let (body, p2) = parse_function(ts, p + 2);
    if p2 == ts.len() {
        return None;
    }
    proof {
        assert(tv[p2 as int] == ts@[p2 as int]@);
    }
    match &ts[p2] {
        Token::RB => {},
        _ => {
            return None;
        },
    }
    Some((body, p2 + 1))
}

fn parse_if_else(ts: &Vec<Token>, p: usize) -> (r: Option<(Statement, usize)>)
    requires
        p <= ts@.len(),
    ensures
        r matches Some(x) ==> sp_if_else(tokens_view(ts@), p as int) == Some((x.0@, x.1 as int))
            && p < x.1 <= ts@.len(),
        r is None ==> sp_if_else(tokens_view(ts@), p as int) is None,
    decreases ts@.len() - p, 1int,
{
    let ((bool_node, body), p4) = match parse_if(ts, p) {
        Some(x) => x,
        None => {
            return None;
        },
    };
    match parse_else(ts, p4) {
        Some((else_body, p5)) => Some((Statement::IF(bool_node, body, Some(else_body)), p5)),
        None => Some((Statement::IF(bool_node, body, None), p4)),
    }
}

fn parse_statement(ts: &Vec<Token>, p: usize) -> (r: Option<(Statement, usize)>)
    requires
        p <= ts@.len(),
    ensures
        r matches Some(x) ==> sp_statement(tokens_view(ts@), p as int) == Some((x.0@, x.1 as int))
            && p < x.1 <= ts@.len(),
        r is None ==> sp_statement(tokens_view(ts@), p as int) is None,
    decreases ts@.len() - p, 2int,
{
    match parse_input(ts, p) {
        Some(x) => {
            return Some(x);
        },
        None => {},
    }
    match parse_output(ts, p) {
        Some(x) => {
            return Some(x);
        },
        None => {},
    }
    match parse_move(ts, p) {
        Some(x) => {
            return Some(x);
        },
        None => {},
    }
    match parse_assign(ts, p) {
        Some(x) => {
            return Some(x);
        },
        None => {},
    }
    match parse_while(ts, p) {
        Some(x) => {
            return Some(x);
        },
        None => {},
    }
    parse_if_else(ts, p)
}

impl Statement {
    /// Reads the tokens' start as a statement: the first match among input,
    /// output, move, assignment, while and if.
    pub fn try_parse(ts: &Vec<Token>) -> (r: Result<Statement, CompileError>)
        ensures
            r matches Ok(s) ==> (match sp_statement(tokens_view(ts@), 0) {
                Some(x) => x.0 == s@,
                None => false,
            }),
            r matches Err(e) ==> sp_statement(tokens_view(ts@), 0) is None && e
                == CompileError::ParseError(0),
    {
        match parse_statement(ts, 0) {
            Some((s, _)) => Ok(s),
            None => Err(CompileError::ParseError(0)),
        }
    }
}

fn parse_function(ts: &Vec<Token>, p: usize) -> (r: (Function, usize))
    requires
        p <= ts@.len(),
    ensures
        sp_function(tokens_view(ts@), p as int) == (r.0@, r.1 as int),
        p <= r.1 <= ts@.len(),
    decreases ts@.len() - p, 3int,
{
    let ghost tv = tokens_view(ts@);
    let mut statements: Vec<Statement> = Vec::new();
    let mut q = p;
    let mut done = false;
    proof {
        assert(stmts_view(statements@) =~= Seq::<StmtV>::empty());
        assert(Seq::<StmtV>::empty() + sp_function(tv, q as int).0 =~= sp_function(
            tv,
            q as int,
        ).0);
    }
    while !done
        invariant
            tv == tokens_view(ts@),
            p <= q <= ts@.len(),
            sp_function(tv, p as int).0 == stmts_view(statements@) + sp_function(tv, q as int).0,
            sp_function(tv, p as int).1 == sp_function(tv, q as int).1,
            done ==> sp_function(tv, q as int) == (Seq::<StmtV>::empty(), q as int),
        decreases ts@.len() - q, (if done {
            0int
        } else {
            1int
        }),
    {
        match parse_statement(ts, q) {
            Some((s, q2)) => {
                let ghost sv = s@;
                let ghost old_statements = statements@;
                statements.push(s);
                proof {
                    assert(sp_function(tv, q as int).0 =~= seq![sv] + sp_function(
                        tv,
                        q2 as int,
                    ).0);
                    assert(sp_function(tv, q as int).1 == sp_function(tv, q2 as int).1);
                    assert(statements@.drop_last() =~= old_statements);
                    assert(stmts_view(statements@) =~= stmts_view(old_statements).push(sv));
                    assert(stmts_view(old_statements) + (seq![sv] + sp_function(tv, q2 as int).0)
                        =~= stmts_view(statements@) + sp_function(tv, q2 as int).0);
                }
                q = q2;
            },
            None => {
                done = true;
                proof {
                    assert(sp_function(tv, q as int) == (Seq::<StmtV>::empty(), q as int));
                }
            },
        }
    }
    proof {
        assert(stmts_view(statements@) + Seq::<StmtV>::empty() =~= stmts_view(statements@));
        assert(sp_function(tv, p as int).0 == stmts_view(statements@));
    }
    (Function(statements), q)
}

impl AST {
    /// Parses a whole token sequence: its statements must be followed
    /// directly by the end-of-input marker.
    pub fn parse(tokens: &Vec<Token>) -> (r: Result<AST, CompileError>)
        ensures
            r matches Ok(t) ==> sp_program(tokens_view(tokens@)) == Ok::<_, CompileError>(t@),
            r matches Err(e) ==> sp_program(tokens_view(tokens@)) == Err::<Seq<StmtV>, _>(e),
    {
        let ghost tv = tokens_view(tokens@);
        let (function, p) = parse_function(tokens, 0);
        if p < tokens.len() {
            proof {
                assert(tv[p as int] == tokens@[p as int]@);
            }
            match &tokens[p] {
                Token::EOF => {
                    return Ok(AST { function });
                },
                _ => {},
            }
        }
        Err(CompileError::ParseError(p))
    }
}

/// Parses a scanned token stream as a program body.
pub fn parse(tokens: TokenStream) -> (r: Result<Function, CompileError>)
    ensures
        r matches Ok(f) ==> sp_program(tokens@) == Ok::<_, CompileError>(f@),
        r matches Err(e) ==> sp_program(tokens@) == Err::<Seq<StmtV>, _>(e),
{
    let toks = tokens.into_tokens();
    let ghost tv = tokens_view(toks@);
    let (function, p) = parse_function(&toks, 0);
    if p < toks.len() {
        proof {
            assert(tv[p as int] == toks@[p as int]@);
        }
        match &toks[p] {
            Token::EOF => {
                return Ok(function);
            },
            _ => {},
        }
    }
    Err(CompileError::ParseError(p))
}


} // verus!
