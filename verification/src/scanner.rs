//! Lexical scanning: source text to a flat token sequence.
//!
//! The text is split on whitespace; every word must match one token pattern
//! (identifier, number, or one of the fixed operator and brace symbols), and
//! the stream always ends with an explicit end-of-input marker.

use crate::text::{all_digits, is_digit, split_ws, str_eq, strs_view, words_of};
use crate::CompileError;
use vstd::prelude::*;
use vstd::string::StrSliceExecFns;

verus! {

/// A lexical token of the source language.
#[derive(Debug, PartialEq, Eq, Clone)]
pub enum Token {
    /// An identifier: a letter or underscore followed by letters, digits and
    /// underscores. Keywords are identifiers at this level.
    ID(String),
    /// A run of decimal digits, kept as text.
    NUM(String),
    ASSIGN,
    EQ,
    NE,
    LP,
    RP,
    LB,
    RB,
    AND,
    EOF,
}

/// The mathematical shape of a token: identifier and number text as
/// character sequences.
pub enum TokenView {
    Id(Seq<char>),
    Num(Seq<char>),
    Assign,
    Equal,
    NotEqual,
    LParen,
    RParen,
    LBrace,
    RBrace,
    And,
    Eof,
}

impl View for Token {
    type V = TokenView;

    open spec fn view(&self) -> TokenView {
        match self {
            Token::ID(s) => TokenView::Id(s@),
            Token::NUM(s) => TokenView::Num(s@),
            Token::ASSIGN => TokenView::Assign,
            Token::EQ => TokenView::Equal,
            Token::NE => TokenView::NotEqual,
            Token::LP => TokenView::LParen,
            Token::RP => TokenView::RParen,
            Token::LB => TokenView::LBrace,
            Token::RB => TokenView::RBrace,
            Token::AND => TokenView::And,
            Token::EOF => TokenView::Eof,
        }
    }
}

/// The views of a sequence of tokens.
pub open spec fn tokens_view(ts: Seq<Token>) -> Seq<TokenView> {
    ts.map_values(|t: Token| t@)
}

pub open spec fn is_id_start(c: char) -> bool {
    (97 <= c as int <= 122) || (65 <= c as int <= 90) || c == '_'
}

pub open spec fn is_id_char(c: char) -> bool {
    is_id_start(c) || is_digit(c)
}

pub open spec fn is_id_word(w: Seq<char>) -> bool {
    w.len() > 0 && is_id_start(w[0]) && forall|i: int| 1 <= i < w.len() ==> is_id_char(w[i])
}

pub open spec fn is_num_word(w: Seq<char>) -> bool {
    w.len() > 0 && all_digits(w)
}

/// What token a single word scans to, if any.
pub open spec fn classify_spec(w: Seq<char>) -> Option<TokenView> {
    if is_id_word(w) {
        Some(TokenView::Id(w))
    } else if is_num_word(w) {
        Some(TokenView::Num(w))
    } else if w == seq!['='] {
        Some(TokenView::Assign)
    } else if w == seq!['=', '='] {
        Some(TokenView::Equal)
    } else if w == seq!['!', '='] {
        Some(TokenView::NotEqual)
    } else if w == seq!['('] {
        Some(TokenView::LParen)
    } else if w == seq![')'] {
        Some(TokenView::RParen)
    } else if w == seq!['{'] {
        Some(TokenView::LBrace)
    } else if w == seq!['}'] {
        Some(TokenView::RBrace)
    } else if w == seq!['&', '&'] {
        Some(TokenView::And)
    } else {
        None
    }
}

/// What scanning a word list yields: the tokens in order, or a lexical
/// error if some word matches no pattern.
pub open spec fn tokenize_words(ws: Seq<Seq<char>>) -> Result<Seq<TokenView>, CompileError>
    decreases ws.len(),
{
    if ws.len() == 0 {
        Ok(Seq::empty())
    } else {
        match (tokenize_words(ws.drop_last()), classify_spec(ws.last())) {
            (Ok(ts), Some(t)) => Ok(ts.push(t)),
            (Err(e), _) => Err(e),
            (Ok(_), None) => Err(CompileError::LexicalError),
        }
    }
}

/// What scanning a whole text yields: its words' tokens followed by the
/// end-of-input marker.
pub open spec fn tokenize_spec(s: Seq<char>) -> Result<Seq<TokenView>, CompileError> {
    match tokenize_words(words_of(s)) {
        Ok(ts) => Ok(ts.push(TokenView::Eof)),
        Err(e) => Err(e),
    }
}

proof fn lemma_tokenize_words_err_kind(ws: Seq<Seq<char>>)
    ensures
        tokenize_words(ws) is Err ==> tokenize_words(ws) == Err::<Seq<TokenView>, CompileError>(
            CompileError::LexicalError,
        ),
    decreases ws.len(),
{
    if ws.len() > 0 {
        lemma_tokenize_words_err_kind(ws.drop_last());
    }
}

proof fn lemma_tokenize_words_err(ws: Seq<Seq<char>>, i: int)
    requires
        0 <= i < ws.len(),
        classify_spec(ws[i]) is None,
    ensures
        tokenize_words(ws) == Err::<Seq<TokenView>, CompileError>(CompileError::LexicalError),
    decreases ws.len(),
{
    if i == ws.len() - 1 {
        lemma_tokenize_words_err_kind(ws.drop_last());
    } else {
        lemma_tokenize_words_err(ws.drop_last(), i);
    }
}

fn is_id_start_exec(c: char) -> (r: bool)
    ensures
        r == is_id_start(c),
{
    let u = c as u32;
    (97 <= u && u <= 122) || (65 <= u && u <= 90) || c == '_'
}

fn is_id_char_exec(c: char) -> (r: bool)
    ensures
        r == is_id_char(c),
{
    let u = c as u32;
    is_id_start_exec(c) || (48 <= u && u <= 57)
}

fn check_id(w: &str) -> (r: bool)
    ensures
        r == is_id_word(w@),
{
    let n = w.unicode_len();
    if n == 0 {
        return false;
    }
    if !is_id_start_exec(w.get_char(0)) {
        return false;
    }
    let mut i: usize = 1;
    while i < n
        invariant
            1 <= i <= n,
            n == w@.len(),
            is_id_start(w@[0]),
            forall|j: int| 1 <= j < i ==> is_id_char(w@[j]),
        decreases n - i,
    {
        if !is_id_char_exec(w.get_char(i)) {
            return false;
        }
        i = i + 1;
    }
    true
}

fn check_num(w: &str) -> (r: bool)
    ensures
        r == is_num_word(w@),
{
    let n = w.unicode_len();
    if n == 0 {
        return false;
    }
    let mut i: usize = 0;
    while i < n
        invariant
            0 <= i <= n,
            n == w@.len(),
            forall|j: int| 0 <= j < i ==> is_digit(w@[j]),
        decreases n - i,
    {
        let u = w.get_char(i) as u32;
        if !(48 <= u && u <= 57) {
            return false;
        }
        i = i + 1;
    }
    true
}

impl Token {
    /// Scans one whitespace-delimited word as a token.
    pub fn from_word(w: &str) -> (r: Result<Token, CompileError>)
        ensures
            r matches Ok(t) ==> classify_spec(w@) == Some(t@),
            r matches Err(e) ==> classify_spec(w@) is None && e == CompileError::LexicalError,
    {
        if check_id(w) {
            return Ok(Token::ID(w.to_owned()));
        }
        if check_num(w) {
            return Ok(Token::NUM(w.to_owned()));
        }
        proof {
            reveal_strlit("=");
            reveal_strlit("==");
            reveal_strlit("!=");
            reveal_strlit("(");
            reveal_strlit(")");
            reveal_strlit("{");
            reveal_strlit("}");
            reveal_strlit("&&");
            assert("="@ =~= seq!['=']);
            assert("=="@ =~= seq!['=', '=']);
            assert("!="@ =~= seq!['!', '=']);
            assert("("@ =~= seq!['(']);
            assert(")"@ =~= seq![')']);
            assert("{"@ =~= seq!['{']);
            assert("}"@ =~= seq!['}']);
            assert("&&"@ =~= seq!['&', '&']);
        }
        if str_eq(w, "=") {
            return Ok(Token::ASSIGN);
        }
        if str_eq(w, "==") {
            return Ok(Token::EQ);
        }
        if str_eq(w, "!=") {
            return Ok(Token::NE);
        }
        if str_eq(w, "(") {
            return Ok(Token::LP);
        }
        if str_eq(w, ")") {
            return Ok(Token::RP);
        }
        if str_eq(w, "{") {
            return Ok(Token::LB);
        }
        if str_eq(w, "}") {
            return Ok(Token::RB);
        }
        if str_eq(w, "&&") {
            return Ok(Token::AND);
        }
        Err(CompileError::LexicalError)
    }
}

/// A scanned token sequence, always ending with the end-of-input marker.
pub struct TokenStream {
    tokens: Vec<Token>,
}

impl View for TokenStream {
    type V = Seq<TokenView>;

    closed spec fn view(&self) -> Seq<TokenView> {
        tokens_view(self.tokens@)
    }
}

impl TokenStream {
    /// Scans a whole source text.
    pub fn tokenize(program: &str) -> (r: Result<TokenStream, CompileError>)
        ensures
            r matches Ok(ts) ==> tokenize_spec(program@) == Ok::<_, CompileError>(ts@),
            r matches Err(e) ==> tokenize_spec(program@) == Err::<Seq<TokenView>, _>(e),
    {
        let words = split_ws(program);
        let ghost wv = strs_view(words@);
        let mut tokens: Vec<Token> = Vec::new();
        proof {
            assert(wv.subrange(0, 0) =~= Seq::<Seq<char>>::empty());
            assert(tokens_view(tokens@) =~= Seq::<TokenView>::empty());
        }
        let mut i: usize = 0;
        while i < words.len()
            invariant
                0 <= i <= words.len(),
                wv == strs_view(words@),
                wv == words_of(program@),
                tokenize_words(wv.subrange(0, i as int)) == Ok::<_, CompileError>(
                    tokens_view(tokens@),
                ),
            decreases words.len() - i,
        {
            proof {
                assert(wv.subrange(0, (i + 1) as int).drop_last() =~= wv.subrange(0, i as int));
                assert(wv[i as int] == words@[i as int]@);
            }
            match Token::from_word(words[i].as_str()) {
                Ok(t) => {
                    let ghost old_tokens = tokens@;
                    tokens.push(t);
                    proof {
                        assert(tokens_view(tokens@) =~= tokens_view(old_tokens).push(t@));
                    }
                },
                Err(e) => {
                    proof {
                        lemma_tokenize_words_err(wv, i as int);
                    }
                    return Err(e);
                },
            }
            i = i + 1;
        }
        proof {
            assert(wv.subrange(0, words@.len() as int) =~= wv);
        }
        let ghost old_tokens = tokens@;
        tokens.push(Token::EOF);
        proof {
            assert(tokens_view(tokens@) =~= tokens_view(old_tokens).push(TokenView::Eof));
        }
        Ok(TokenStream { tokens })
    }

    /// Hands out the scanned tokens.
    pub fn into_tokens(self) -> (r: Vec<Token>)
        ensures
            tokens_view(r@) == self@,
    {
        self.tokens
    }
}

} // verus!
