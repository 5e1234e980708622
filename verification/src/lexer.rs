//! The tokenizer: a single left-to-right scan that can never fail.
//! Unrecognized text becomes an opaque identifier token, bracket syntax
//! is sugar for a list-construction call, and the modulo character
//! relocates the token before it so the parser can treat modulo like any
//! other prefix-pushed operator.
use vstd::prelude::*;
use vstd::string::StrSliceExecFns;
use vstd::string::StringExecFns;

use crate::num;
use crate::num::Num;

verus! {

/// One lexical token. Numeric literals carry the exact number they
/// denote; unrecognized words carry their text.
#[derive(Debug, PartialEq)]
pub enum Token {
    Add,
    Sub,
    Div,
    Mul,
    Mod,
    Pow,
    Imod,
    Ipow,
    Aikavali,
    Abs,
    List,
    Log,
    Ln,
    Floor,
    Ceil,
    Sqrt,
    Exp,
    Interpoloi,
    Min,
    Max,
    Sum,
    Sin,
    Cos,
    Tan,
    Arcsin,
    Arccos,
    Arctan,
    Logb,
    Interp,
    Aikainterp,
    Med,
    Kesk,
    If,
    SS,
    ParL,
    ParR,
    BrackL,
    BrackR,
    Comma,
    Eq,
    Neq,
    Lt,
    Le,
    Gt,
    Ge,
    Expr(String),
    Num(Num),
    Empty,
    Plus,
    Minus,
}

/// The mathematical shape of a token: identifier text as a character
/// sequence rather than an owned string.
pub enum TokenV {
    Add,
    Sub,
    Div,
    Mul,
    Mod,
    Pow,
    Imod,
    Ipow,
    Aikavali,
    Abs,
    List,
    Log,
    Ln,
    Floor,
    Ceil,
    Sqrt,
    Exp,
    Interpoloi,
    Min,
    Max,
    Sum,
    Sin,
    Cos,
    Tan,
    Arcsin,
    Arccos,
    Arctan,
    Logb,
    Interp,
    Aikainterp,
    Med,
    Kesk,
    If,
    SS,
    ParL,
    ParR,
    BrackL,
    BrackR,
    Comma,
    Eq,
    Neq,
    Lt,
    Le,
    Gt,
    Ge,
    Expr(Seq<char>),
    Num(Num),
    Empty,
    Plus,
    Minus,
}

impl View for Token {
    type V = TokenV;

    open spec fn view(&self) -> TokenV {
        match self {
            Token::Add => TokenV::Add,
            Token::Sub => TokenV::Sub,
            Token::Div => TokenV::Div,
            Token::Mul => TokenV::Mul,
            Token::Mod => TokenV::Mod,
            Token::Pow => TokenV::Pow,
            Token::Imod => TokenV::Imod,
            Token::Ipow => TokenV::Ipow,
            Token::Aikavali => TokenV::Aikavali,
            Token::Abs => TokenV::Abs,
            Token::List => TokenV::List,
            Token::Log => TokenV::Log,
            Token::Ln => TokenV::Ln,
            Token::Floor => TokenV::Floor,
            Token::Ceil => TokenV::Ceil,
            Token::Sqrt => TokenV::Sqrt,
            Token::Exp => TokenV::Exp,
            Token::Interpoloi => TokenV::Interpoloi,
            Token::Min => TokenV::Min,
            Token::Max => TokenV::Max,
            Token::Sum => TokenV::Sum,
            Token::Sin => TokenV::Sin,
            Token::Cos => TokenV::Cos,
            Token::Tan => TokenV::Tan,
            Token::Arcsin => TokenV::Arcsin,
            Token::Arccos => TokenV::Arccos,
            Token::Arctan => TokenV::Arctan,
            Token::Logb => TokenV::Logb,
            Token::Interp => TokenV::Interp,
            Token::Aikainterp => TokenV::Aikainterp,
            Token::Med => TokenV::Med,
            Token::Kesk => TokenV::Kesk,
            Token::If => TokenV::If,
            Token::SS => TokenV::SS,
            Token::ParL => TokenV::ParL,
            Token::ParR => TokenV::ParR,
            Token::BrackL => TokenV::BrackL,
            Token::BrackR => TokenV::BrackR,
            Token::Comma => TokenV::Comma,
            Token::Eq => TokenV::Eq,
            Token::Neq => TokenV::Neq,
            Token::Lt => TokenV::Lt,
            Token::Le => TokenV::Le,
            Token::Gt => TokenV::Gt,
            Token::Ge => TokenV::Ge,
            Token::Expr(s) => TokenV::Expr(s@),
            Token::Num(n) => TokenV::Num(*n),
            Token::Empty => TokenV::Empty,
            Token::Plus => TokenV::Plus,
            Token::Minus => TokenV::Minus,
        }
    }
}

impl Clone for Token {
    fn clone(&self) -> (r: Self)
        ensures
            r@ == self@,
    {
        match self {
            Token::Add => Token::Add,
            Token::Sub => Token::Sub,
            Token::Div => Token::Div,
            Token::Mul => Token::Mul,
            Token::Mod => Token::Mod,
            Token::Pow => Token::Pow,
            Token::Imod => Token::Imod,
            Token::Ipow => Token::Ipow,
            Token::Aikavali => Token::Aikavali,
            Token::Abs => Token::Abs,
            Token::List => Token::List,
            Token::Log => Token::Log,
            Token::Ln => Token::Ln,
            Token::Floor => Token::Floor,
            Token::Ceil => Token::Ceil,
            Token::Sqrt => Token::Sqrt,
            Token::Exp => Token::Exp,
            Token::Interpoloi => Token::Interpoloi,
            Token::Min => Token::Min,
            Token::Max => Token::Max,
            Token::Sum => Token::Sum,
            Token::Sin => Token::Sin,
            Token::Cos => Token::Cos,
            Token::Tan => Token::Tan,
            Token::Arcsin => Token::Arcsin,
            Token::Arccos => Token::Arccos,
            Token::Arctan => Token::Arctan,
            Token::Logb => Token::Logb,
            Token::Interp => Token::Interp,
            Token::Aikainterp => Token::Aikainterp,
            Token::Med => Token::Med,
            Token::Kesk => Token::Kesk,
            Token::If => Token::If,
            Token::SS => Token::SS,
            Token::ParL => Token::ParL,
            Token::ParR => Token::ParR,
            Token::BrackL => Token::BrackL,
            Token::BrackR => Token::BrackR,
            Token::Comma => Token::Comma,
            Token::Eq => Token::Eq,
            Token::Neq => Token::Neq,
            Token::Lt => Token::Lt,
            Token::Le => Token::Le,
            Token::Gt => Token::Gt,
            Token::Ge => Token::Ge,
            Token::Expr(s) => Token::Expr(s.clone()),
            Token::Num(n) => Token::Num(*n),
            Token::Empty => Token::Empty,
            Token::Plus => Token::Plus,
            Token::Minus => Token::Minus,
        }
    }
}

/// The view of a token sequence.
pub open spec fn toks_view(s: Seq<Token>) -> Seq<TokenV> {
    Seq::new(s.len(), |i: int| s[i]@)
}

/// What `char::is_alphanumeric` decides; its result depends on the
/// character alone.
pub uninterp spec fn alphanumeric(c: char) -> bool;

/// What `char::is_whitespace` decides; its result depends on the
/// character alone.
pub uninterp spec fn whitespace(c: char) -> bool;

/// Relies on char::is_alphanumeric of std, which vstd leaves
/// unspecified, to classify identifier characters.
#[verifier::external_body]
fn char_is_alphanumeric(c: char) -> (r: bool)
    ensures
        r == alphanumeric(c),
{
    c.is_alphanumeric()
}

/// Relies on char::is_whitespace of std, which vstd leaves unspecified,
/// to recognize the blanks between tokens.
#[verifier::external_body]
fn char_is_whitespace(c: char) -> (r: bool)
    ensures
        r == whitespace(c),
{
    c.is_whitespace()
}

/// A character an expression word may contain: letters and digits, the
/// path dot, and the comparison punctuation.
pub open spec fn expr_char(c: char) -> bool {
    alphanumeric(c) || c == '.' || c == '=' || c == '>' || c == '<' || c == '!'
}

fn expr_char_exec(c: char) -> (r: bool)
    ensures
        r == expr_char(c),
{
    char_is_alphanumeric(c) || c == '.' || c == '=' || c == '>' || c == '<' || c == '!'
}

/// First position at or after `i` holding no expression character.
pub open spec fn expr_end(s: Seq<char>, i: int) -> int
    decreases s.len() - i,
{
    if i < 0 || i >= s.len() {
        i
    } else if expr_char(s[i]) {
        expr_end(s, i + 1)
    } else {
        i
    }
}

proof fn lemma_expr_end_bounds(s: Seq<char>, i: int)
    requires
        0 <= i <= s.len(),
    ensures
        i <= expr_end(s, i) <= s.len(),
    decreases s.len() - i,
{
    if i < s.len() {
        lemma_expr_end_bounds(s, i + 1);
    }
}

/// The mantissa of the circle constant, to fifteen decimal places.
pub const PI_M: i128 = 3_141_592_653_589_793;

/// The mantissa of the base of the natural logarithm, to fifteen
/// decimal places.
pub const NEPER_M: i128 = 2_718_281_828_459_045;

/// Classify a captured word: first the keyword table with its synonyms
/// and named constants, then a numeric literal, and otherwise an opaque
/// identifier.
pub open spec fn spec_classify(w: Seq<char>) -> TokenV {
    if w == "aikavali"@ {
        TokenV::Aikavali
    } else if w == "abs"@ {
        TokenV::Abs
    } else if w == "log"@ {
        TokenV::Log
    } else if w == "ln"@ {
        TokenV::Ln
    } else if w == "floor"@ {
        TokenV::Floor
    } else if w == "ceil"@ {
        TokenV::Ceil
    } else if w == "sqrt"@ {
        TokenV::Sqrt
    } else if w == "exp"@ {
        TokenV::Exp
    } else if w == "mod"@ {
        TokenV::Mod
    } else if w == "pow"@ {
        TokenV::Pow
    } else if w == "interpoloi"@ {
        TokenV::Interpoloi
    } else if w == "min"@ || w == "pienin"@ {
        TokenV::Min
    } else if w == "max"@ || w == "suurin"@ {
        TokenV::Max
    } else if w == "if"@ {
        TokenV::If
    } else if w == "sum"@ {
        TokenV::Sum
    } else if w == "sin"@ {
        TokenV::Sin
    } else if w == "neper"@ {
        TokenV::Num(Num::Fin(NEPER_M as i128))
    } else if w == "pi"@ {
        TokenV::Num(Num::Fin(PI_M as i128))
    } else if w == "cos"@ {
        TokenV::Cos
    } else if w == "tan"@ {
        TokenV::Tan
    } else if w == "arcsin"@ {
        TokenV::Arcsin
    } else if w == "arccos"@ {
        TokenV::Arccos
    } else if w == "arctan"@ {
        TokenV::Arctan
    } else if w == "aikainterp"@ {
        TokenV::Aikainterp
    } else if w == "logb"@ {
        TokenV::Logb
    } else if w == "interp"@ {
        TokenV::Interp
    } else if w == "med"@ || w == "median"@ {
        TokenV::Med
    } else if w == "kesk"@ || w == "mean"@ {
        TokenV::Kesk
    } else if w == "ss"@ {
        TokenV::SS
    } else if w == "=="@ {
        TokenV::Eq
    } else if w == "!="@ {
        TokenV::Neq
    } else if w == ">="@ {
        TokenV::Ge
    } else if w == "<="@ {
        TokenV::Le
    } else if w == ">"@ {
        TokenV::Lt
    } else if w == "<"@ {
        TokenV::Gt
    } else {
        match num::spec_from_literal(w) {
            Some(v) => TokenV::Num(v),
            None => TokenV::Expr(w),
        }
    }
}

/// The token sequence the scan produces from position `pos` onward,
/// given what was already emitted: whitespace is skipped, single
/// characters become structural and operator tokens, a bracket expands
/// to a list call, the modulo sign relocates the latest token, and a
/// word is captured whole and classified.
pub open spec fn spec_lex(s: Seq<char>, pos: int, acc: Seq<TokenV>) -> Seq<TokenV>
    decreases s.len() - pos,
{
    if pos < 0 || pos >= s.len() {
        acc
    } else {
        let c = s[pos];
        if whitespace(c) {
            spec_lex(s, pos + 1, acc)
        } else if c == '(' {
            spec_lex(s, pos + 1, acc.push(TokenV::ParL))
        } else if c == ')' || c == ']' {
            spec_lex(s, pos + 1, acc.push(TokenV::ParR))
        } else if c == '[' {
            spec_lex(s, pos + 1, acc.push(TokenV::List).push(TokenV::ParL))
        } else if c == '+' {
            spec_lex(s, pos + 1, acc.push(TokenV::Add))
        } else if c == '-' {
            spec_lex(s, pos + 1, acc.push(TokenV::Sub))
        } else if c == '*' {
            spec_lex(s, pos + 1, acc.push(TokenV::Mul))
        } else if c == '/' {
            spec_lex(s, pos + 1, acc.push(TokenV::Div))
        } else if c == '^' {
            spec_lex(s, pos + 1, acc.push(TokenV::Ipow))
        } else if c == '%' {
            if acc.len() > 0 {
                spec_lex(
                    s,
                    pos + 1,
                    acc.take(acc.len() - 1).push(TokenV::Imod).push(acc.last()),
                )
            } else {
                spec_lex(s, pos + 1, acc.push(TokenV::Imod))
            }
        } else if c == ',' {
            spec_lex(s, pos + 1, acc.push(TokenV::Comma))
        } else {
            let e = expr_end(s, pos);
            let e2 = if e <= s.len() {
                e
            } else {
                s.len() as int
            };
            if e2 > pos {
                spec_lex(s, e2, acc.push(spec_classify(s.subrange(pos, e2))))
            } else {
                spec_lex(s, pos + 1, acc.push(TokenV::Expr(seq![c])))
            }
        }
    }
}

/// The scanner: a position inside the input text.
#[derive(Debug)]
pub struct Lexer {
    pub pos: usize,
    pub inp: String,
}

impl Lexer {
    pub fn new(inp: &str) -> (r: Lexer)
        ensures
            r.pos == 0,
            r.inp@ == inp@,
    {
        Lexer { pos: 0, inp: String::from_str(inp) }
    }

    /// The character under the cursor.
    pub fn next_char(&self) -> (c: char)
        requires
            self.pos < self.inp@.len(),
        ensures
            c == self.inp@[self.pos as int],
    {
        self.inp.as_str().get_char(self.pos)
    }

    /// Whether the whole input has been consumed.
    pub fn eof(&self) -> (r: bool)
        ensures
            r == (self.pos >= self.inp@.len()),
    {
        self.pos >= self.inp.as_str().unicode_len()
    }

    /// Take the character under the cursor and advance past it.
    pub fn consume_char(&mut self) -> (c: char)
        requires
            old(self).pos < old(self).inp@.len(),
        ensures
            c == old(self).inp@[old(self).pos as int],
            final(self).pos == old(self).pos + 1,
            final(self).inp@ == old(self).inp@,
    {
        let n = self.inp.as_str().unicode_len();
        let c = self.inp.as_str().get_char(self.pos);
        assert(self.pos < n);
        self.pos = self.pos + 1;
        c
    }

    /// Skip the run of whitespace under the cursor.
    pub fn consume_whitespace(&mut self)
        requires
            old(self).pos <= old(self).inp@.len(),
        ensures
            old(self).pos <= final(self).pos <= final(self).inp@.len(),
            final(self).inp@ == old(self).inp@,
            forall|i: int|
                old(self).pos <= i < final(self).pos ==> whitespace(#[trigger] old(self).inp@[i]),
            final(self).pos < final(self).inp@.len() ==> !whitespace(
                final(self).inp@[final(self).pos as int],
            ),
    {
        let n = self.inp.as_str().unicode_len();
        loop
            invariant
                old(self).pos <= self.pos <= n,
                n == self.inp@.len(),
                self.inp@ == old(self).inp@,
                forall|i: int| old(self).pos <= i < self.pos ==> whitespace(#[trigger] self.inp@[i]),
            ensures
                old(self).pos <= self.pos <= n,
                self.inp@ == old(self).inp@,
                forall|i: int| old(self).pos <= i < self.pos ==> whitespace(#[trigger] self.inp@[i]),
                self.pos < n ==> !whitespace(self.inp@[self.pos as int]),
            decreases n - self.pos,
        {
            if self.pos >= n {
                break;
            }
            let c = self.inp.as_str().get_char(self.pos);
            if !char_is_whitespace(c) {
                break;
            }
            self.pos = self.pos + 1;
        }
    }

    /// Capture the run of expression characters under the cursor.
    pub fn get_expr(&mut self) -> (r: String)
        requires
            old(self).pos <= old(self).inp@.len(),
        ensures
            final(self).inp@ == old(self).inp@,
            final(self).pos == expr_end(old(self).inp@, old(self).pos as int),
            r@ == old(self).inp@.subrange(old(self).pos as int, final(self).pos as int),
            old(self).pos <= final(self).pos <= final(self).inp@.len(),
    {
        let n = self.inp.as_str().unicode_len();
        let start = self.pos;
        proof {
            lemma_expr_end_bounds(self.inp@, start as int);
        }
        loop
            invariant
                start <= self.pos <= n,
                n == self.inp@.len(),
                self.inp@ == old(self).inp@,
                expr_end(self.inp@, start as int) == expr_end(self.inp@, self.pos as int),
            ensures
                start <= self.pos <= n,
                self.inp@ == old(self).inp@,
                expr_end(self.inp@, start as int) == expr_end(self.inp@, self.pos as int),
                self.pos >= n || !expr_char(self.inp@[self.pos as int]),
            decreases n - self.pos,
        {
            if self.pos >= n {
                break;
            }
            let c = self.inp.as_str().get_char(self.pos);
            if !expr_char_exec(c) {
                break;
            }
            self.pos = self.pos + 1;
        }
        String::from_str(self.inp.as_str().substring_char(start, self.pos))
    }

    /// Classify one captured word, as the keyword table, a numeric
    /// literal, or an opaque identifier.
    pub fn parse_expr(&self, expr: &str) -> (t: Token)
        ensures
            t@ == spec_classify(expr@),
    {
        if str_eq(expr, "aikavali") {
            Token::Aikavali
        } else if str_eq(expr, "abs") {
            Token::Abs
        } else if str_eq(expr, "log") {
            Token::Log
        } else if str_eq(expr, "ln") {
            Token::Ln
        } else if str_eq(expr, "floor") {
            Token::Floor
        } else if str_eq(expr, "ceil") {
            Token::Ceil
        } else if str_eq(expr, "sqrt") {
            Token::Sqrt
        } else if str_eq(expr, "exp") {
            Token::Exp
        } else if str_eq(expr, "mod") {
            Token::Mod
        } else if str_eq(expr, "pow") {
            Token::Pow
        } else if str_eq(expr, "interpoloi") {
            Token::Interpoloi
        } else if str_eq(expr, "min") || str_eq(expr, "pienin") {
            Token::Min
        } else if str_eq(expr, "max") || str_eq(expr, "suurin") {
            Token::Max
        } else if str_eq(expr, "if") {
            Token::If
        } else if str_eq(expr, "sum") {
            Token::Sum
        } else if str_eq(expr, "sin") {
            Token::Sin
        } else if str_eq(expr, "neper") {
            Token::Num(Num::Fin(NEPER_M))
        } else if str_eq(expr, "pi") {
            Token::Num(Num::Fin(PI_M))
        } else if str_eq(expr, "cos") {
            Token::Cos
        } else if str_eq(expr, "tan") {
            Token::Tan
        } else if str_eq(expr, "arcsin") {
            Token::Arcsin
        } else if str_eq(expr, "arccos") {
            Token::Arccos
        } else if str_eq(expr, "arctan") {
            Token::Arctan
        } else if str_eq(expr, "aikainterp") {
            Token::Aikainterp
        } else if str_eq(expr, "logb") {
            Token::Logb
        } else if str_eq(expr, "interp") {
            Token::Interp
        } else if str_eq(expr, "med") || str_eq(expr, "median") {
            Token::Med
        } else if str_eq(expr, "kesk") || str_eq(expr, "mean") {
            Token::Kesk
        } else if str_eq(expr, "ss") {
            Token::SS
        } else if str_eq(expr, "==") {
            Token::Eq
        } else if str_eq(expr, "!=") {
            Token::Neq
        } else if str_eq(expr, ">=") {
            Token::Ge
        } else if str_eq(expr, "<=") {
            Token::Le
        } else if str_eq(expr, ">") {
            Token::Lt
        } else if str_eq(expr, "<") {
            Token::Gt
        } else {
            match num::from_literal(expr) {
                Some(v) => Token::Num(v),
                None => Token::Expr(String::from_str(expr)),
            }
        }
    }

    /// Scan the whole input into its token sequence. Never fails: what
    /// is not recognized comes out as an identifier token.
    pub fn lex(&mut self) -> (r: Vec<Token>)
        requires
            old(self).pos <= old(self).inp@.len(),
        ensures
            toks_view(r@) == spec_lex(old(self).inp@, old(self).pos as int, Seq::empty()),
            final(self).inp@ == old(self).inp@,
    {
        let mut res: Vec<Token> = Vec::new();
        proof {
            assert(toks_view(res@) =~= Seq::<TokenV>::empty());
        }
        loop
            invariant
                self.pos <= self.inp@.len(),
                self.inp@ == old(self).inp@,
                spec_lex(old(self).inp@, old(self).pos as int, Seq::empty()) == spec_lex(
                    self.inp@,
                    self.pos as int,
                    toks_view(res@),
                ),
            ensures
                self.inp@ == old(self).inp@,
                toks_view(res@) == spec_lex(old(self).inp@, old(self).pos as int, Seq::empty()),
            decreases self.inp@.len() - self.pos,
        {
            if self.eof() {
                break;
            }
            let ghost pos0 = self.pos as int;
            self.consume_whitespace();
            proof {
                lemma_lex_skip_ws(self.inp@, pos0, self.pos as int, toks_view(res@));
            }
            if self.eof() {
                break;
            }
            let ghost accv = toks_view(res@);
            let ghost p = self.pos as int;
            let c = self.next_char();
            match c {
                '(' => {
                    self.consume_char();
                    res.push(Token::ParL);
                    proof {
                        assert(toks_view(res@) =~= accv.push(TokenV::ParL));
                    }
                }
                ')' | ']' => {
                    self.consume_char();
                    res.push(Token::ParR);
                    proof {
                        assert(toks_view(res@) =~= accv.push(TokenV::ParR));
                    }
                }
                '[' => {
                    self.consume_char();
                    res.push(Token::List);
                    res.push(Token::ParL);
                    proof {
                        assert(toks_view(res@) =~= accv.push(TokenV::List).push(TokenV::ParL));
                    }
                }
                '+' => {
                    self.consume_char();
                    res.push(Token::Add);
                    proof {
                        assert(toks_view(res@) =~= accv.push(TokenV::Add));
                    }
                }
                '-' => {
                    self.consume_char();
                    res.push(Token::Sub);
                    proof {
                        assert(toks_view(res@) =~= accv.push(TokenV::Sub));
                    }
                }
                '*' => {
                    self.consume_char();
                    res.push(Token::Mul);
                    proof {
                        assert(toks_view(res@) =~= accv.push(TokenV::Mul));
                    }
                }
                '/' => {
                    self.consume_char();
                    res.push(Token::Div);
                    proof {
                        assert(toks_view(res@) =~= accv.push(TokenV::Div));
                    }
                }
                '^' => {
                    self.consume_char();
                    res.push(Token::Ipow);
                    proof {
                        assert(toks_view(res@) =~= accv.push(TokenV::Ipow));
                    }
                }
                '%' => {
                    self.consume_char();
                    match res.pop() {
                        Some(tmp) => {
                            res.push(Token::Imod);
                            res.push(tmp);
                            proof {
                                assert(toks_view(res@) =~= accv.take(accv.len() - 1).push(
                                    TokenV::Imod,
                                ).push(accv.last()));
                            }
                        }
                        None => {
                            res.push(Token::Imod);
                            proof {
                                assert(toks_view(res@) =~= accv.push(TokenV::Imod));
                            }
                        }
                    }
                }
                ',' => {
                    self.consume_char();
                    res.push(Token::Comma);
                    proof {
                        assert(toks_view(res@) =~= accv.push(TokenV::Comma));
                    }
                }
                _ => {
                    let w = self.get_expr();
                    if w.as_str().unicode_len() == 0 {
                        let n = self.inp.as_str().unicode_len();
                        let cs = self.inp.as_str().substring_char(self.pos, self.pos + 1);
                        let t = Token::Expr(String::from_str(cs));
                        self.consume_char();
                        res.push(t);
                        proof {
                            assert(old(self).inp@.subrange(p, p + 1) =~= seq![c]);
                            assert(toks_view(res@) =~= accv.push(TokenV::Expr(seq![c])));
                        }
                    } else {
                        let t = self.parse_expr(w.as_str());
                        res.push(t);
                        proof {
                            assert(toks_view(res@) =~= accv.push(
                                spec_classify(
                                    old(self).inp@.subrange(p, expr_end(old(self).inp@, p)),
                                ),
                            ));
                        }
                    }
                }
            }
        }
        res
    }
}

/// Skipping whitespace does not change what the scan will produce.
proof fn lemma_lex_skip_ws(s: Seq<char>, i: int, j: int, acc: Seq<TokenV>)
    requires
        0 <= i <= j <= s.len(),
        forall|k: int| i <= k < j ==> whitespace(#[trigger] s[k]),
    ensures
        spec_lex(s, i, acc) == spec_lex(s, j, acc),
    decreases j - i,
{
    if i < j {
        lemma_lex_skip_ws(s, i + 1, j, acc);
    }
}

/// Character-wise string equality.
fn str_eq(a: &str, b: &str) -> (r: bool)
    ensures
        r == (a@ == b@),
{
    let n = a.unicode_len();
    if n != b.unicode_len() {
        return false;
    }
    let mut i: usize = 0;
    while i < n
        invariant
            0 <= i <= n,
            n == a@.len() == b@.len(),
            forall|j: int| 0 <= j < i ==> a@[j] == b@[j],
        decreases n - i,
    {
        if a.get_char(i) != b.get_char(i) {
            return false;
        }
        i = i + 1;
    }
    proof {
        assert(a@ =~= b@);
    }
    true
}

/// Scan a text into its token sequence.
pub fn lex(s: &str) -> (r: Vec<Token>)
    ensures
        toks_view(r@) == spec_lex(s@, 0, Seq::empty()),
{
    let mut lexer = Lexer::new(s);
    lexer.lex()
}

} // verus!
