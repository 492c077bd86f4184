//! The tokens of the search language.
use vstd::prelude::*;

use crate::text::{alpha, char_from, digit, find_char, is_alpha, is_digit, is_space, space};
use crate::text::{same, string_from, to_chars, to_upper, upper};

verus! {

/// A token. Keywords are told from words by their upper-case spelling; quotes
/// are stripped from strings.
#[derive(Debug, PartialEq)]
pub enum Tok {
    Select,
    Where,
    Group,
    By,
    Limit,
    And,
    Or,
    Not,
    Eq,
    Ne,
    LParen,
    RParen,
    Comma,
    Word(String),
    Str(String),
}

/// The model of a token.
pub ghost enum TokV {
    Select,
    Where,
    Group,
    By,
    Limit,
    And,
    Or,
    Not,
    Eq,
    Ne,
    LParen,
    RParen,
    Comma,
    Word(Seq<char>),
    Str(Seq<char>),
}

impl View for Tok {
    type V = TokV;

    open spec fn view(&self) -> TokV {
        match self {
            Tok::Select => TokV::Select,
            Tok::Where => TokV::Where,
            Tok::Group => TokV::Group,
            Tok::By => TokV::By,
            Tok::Limit => TokV::Limit,
            Tok::And => TokV::And,
            Tok::Or => TokV::Or,
            Tok::Not => TokV::Not,
            Tok::Eq => TokV::Eq,
            Tok::Ne => TokV::Ne,
            Tok::LParen => TokV::LParen,
            Tok::RParen => TokV::RParen,
            Tok::Comma => TokV::Comma,
            Tok::Word(w) => TokV::Word(w@),
            Tok::Str(s) => TokV::Str(s@),
        }
    }
}

/// The models of a list of tokens.
pub open spec fn tok_views(v: Seq<Tok>) -> Seq<TokV> {
    v.map_values(|t: Tok| t@)
}

/// The characters that can begin a word.
pub open spec fn word_start(c: char) -> bool {
    is_alpha(c) || is_digit(c) || c == '_'
}

/// The characters that can continue a word.
pub open spec fn word_char(c: char) -> bool {
    is_alpha(c) || is_digit(c) || c == '_' || c == '.' || c == '/' || c == ':' || c == '-'
}

/// Whether `c` can begin a word.
pub fn is_word_start(c: char) -> (r: bool)
    ensures
        r == word_start(c),
{
    alpha(c) || digit(c) || c == '_'
}

/// Whether `c` can continue a word.
pub fn is_word_char(c: char) -> (r: bool)
    ensures
        r == word_char(c),
{
    alpha(c) || digit(c) || c == '_' || c == '.' || c == '/' || c == ':' || c == '-'
}

/// The position behind the word characters that begin at `i`.
pub open spec fn word_end(s: Seq<char>, i: int) -> int
    decreases s.len() - i,
{
    if 0 <= i < s.len() && word_char(s[i]) {
        word_end(s, i + 1)
    } else {
        i
    }
}

/// The token that a word stands for.
pub open spec fn word_token(w: Seq<char>) -> TokV {
    let u = upper(w);
    if u == "SELECT"@ {
        TokV::Select
    } else if u == "WHERE"@ {
        TokV::Where
    } else if u == "GROUP"@ {
        TokV::Group
    } else if u == "BY"@ {
        TokV::By
    } else if u == "LIMIT"@ {
        TokV::Limit
    } else if u == "AND"@ {
        TokV::And
    } else if u == "OR"@ {
        TokV::Or
    } else if u == "NOT"@ {
        TokV::Not
    } else {
        TokV::Word(w)
    }
}

/// The token that begins at `i`, with the position behind it, or a message.
pub open spec fn token_at(s: Seq<char>, i: int) -> Result<(TokV, int), Seq<char>> {
    let c = s[i];
    if c == '(' {
        Ok((TokV::LParen, i + 1))
    } else if c == ')' {
        Ok((TokV::RParen, i + 1))
    } else if c == ',' {
        Ok((TokV::Comma, i + 1))
    } else if c == '\'' || c == '"' {
        match char_from(s, c, i + 1) {
            Some(j) => Ok((TokV::Str(s.subrange(i + 1, j)), j + 1)),
            None => Err("unterminated quoted string"@),
        }
    } else if c == '=' {
        Ok(
            (
                TokV::Eq,
                if i + 1 < s.len() && s[i + 1] == '=' {
                    i + 2
                } else {
                    i + 1
                },
            ),
        )
    } else if c == '!' {
        if i + 1 < s.len() && s[i + 1] == '=' {
            Ok((TokV::Ne, i + 2))
        } else {
            Err("expected '=' after '!'"@)
        }
    } else if c == '<' {
        if i + 1 < s.len() && s[i + 1] == '>' {
            Ok((TokV::Ne, i + 2))
        } else {
            Err("expected '>' after '<'"@)
        }
    } else if word_start(c) {
        Ok((word_token(s.subrange(i, word_end(s, i))), word_end(s, i)))
    } else {
        Err("unexpected character '"@.push(c) + "'"@)
    }
}

/// The tokens of `s` from position `i` on, or the message of the first error.
pub open spec fn tokens_from(s: Seq<char>, i: int) -> Result<Seq<TokV>, Seq<char>>
    decreases s.len() - i,
{
    if i < 0 || i >= s.len() {
        Ok(Seq::empty())
    } else if is_space(s[i]) {
        tokens_from(s, i + 1)
    } else {
        match token_at(s, i) {
            Err(m) => Err(m),
            Ok((t, j)) => if i < j <= s.len() {
                prepend(seq![t], tokens_from(s, j))
            } else {
                Err(Seq::empty())
            },
        }
    }
}

/// The tokens `front` before those of a result.
pub open spec fn prepend(front: Seq<TokV>, r: Result<Seq<TokV>, Seq<char>>) -> Result<
    Seq<TokV>,
    Seq<char>,
> {
    match r {
        Ok(ts) => Ok(front + ts),
        Err(m) => Err(m),
    }
}

/// The model of the lexer's result.
pub open spec fn lex_view(r: Result<Vec<Tok>, String>) -> Result<Seq<TokV>, Seq<char>> {
    match r {
        Ok(v) => Ok(tok_views(v@)),
        Err(m) => Err(m@),
    }
}

/// The token that a word stands for.
pub fn keyword_or_word(w: String) -> (r: Tok)
    ensures
        r@ == word_token(w@),
{
    let u = to_upper(w.as_str());
    let k = u.as_str();
    if same(k, "SELECT") {
        Tok::Select
    } else if same(k, "WHERE") {
        Tok::Where
    } else if same(k, "GROUP") {
        Tok::Group
    } else if same(k, "BY") {
        Tok::By
    } else if same(k, "LIMIT") {
        Tok::Limit
    } else if same(k, "AND") {
        Tok::And
    } else if same(k, "OR") {
        Tok::Or
    } else if same(k, "NOT") {
        Tok::Not
    } else {
        Tok::Word(w)
    }
}

fn end_of_word(s: &Vec<char>, i: usize) -> (r: usize)
    requires
        i <= s@.len(),
    ensures
        r == word_end(s@, i as int),
        i <= r <= s@.len(),
        i < s@.len() && word_char(s@[i as int]) ==> i < r,
{
    let n: usize = s.len();
    let mut j: usize = i;
    while j < n && is_word_char(s[j])
        invariant
            n == s@.len(),
            i <= j <= n,
            word_end(s@, i as int) == word_end(s@, j as int),
        decreases n - j,
    {
        j = j + 1;
    }
    j
}

/// The token that begins at `i`, with the position behind it, or a message.
fn lex_one(s: &Vec<char>, i: usize) -> (r: Result<(Tok, usize), String>)
    requires
        i < s@.len(),
    ensures
        match r {
            Ok(p) => token_at(s@, i as int) == Ok::<(TokV, int), Seq<char>>((p.0@, p.1 as int)) && i
                < p.1 <= s@.len(),
            Err(m) => token_at(s@, i as int) == Err::<(TokV, int), Seq<char>>(m@),
        },
{
    let n: usize = s.len();
    let c = s[i];
    if c == '(' {
        Ok((Tok::LParen, i + 1))
    } else if c == ')' {
        Ok((Tok::RParen, i + 1))
    } else if c == ',' {
        Ok((Tok::Comma, i + 1))
    } else if c == '\'' || c == '"' {
        match find_char(s, c, i + 1) {
            Some(j) => Ok((Tok::Str(string_from(s, i + 1, j)), j + 1)),
            None => Err("unterminated quoted string".to_owned()),
        }
    } else if c == '=' {
        if i + 1 < n && s[i + 1] == '=' {
            Ok((Tok::Eq, i + 2))
        } else {
            Ok((Tok::Eq, i + 1))
        }
    } else if c == '!' {
        if i + 1 < n && s[i + 1] == '=' {
            Ok((Tok::Ne, i + 2))
        } else {
            Err("expected '=' after '!'".to_owned())
        }
    } else if c == '<' {
        if i + 1 < n && s[i + 1] == '>' {
            Ok((Tok::Ne, i + 2))
        } else {
            Err("expected '>' after '<'".to_owned())
        }
    } else if is_word_start(c) {
        let j: usize = end_of_word(s, i);
        Ok((keyword_or_word(string_from(s, i, j)), j))
    } else {
        let mut m = "unexpected character '".to_owned();
        m.push(c);
        m.append("'");
        Err(m)
    }
}

/// Splits a query into its tokens.
pub fn lex(s: &str) -> (r: Result<Vec<Tok>, String>)
    ensures
        lex_view(r) == tokens_from(s@, 0),
{
    let chars = to_chars(s);
    let n: usize = chars.len();
    let mut toks: Vec<Tok> = Vec::new();
    let mut i: usize = 0;
    proof {
        if let Ok(ts) = tokens_from(s@, 0) {
            assert(tok_views(toks@) + ts =~= ts);
        }
    }
    while i < n
        invariant
            n == chars@.len(),
            chars@ == s@,
            i <= n,
            tokens_from(s@, 0) == prepend(tok_views(toks@), tokens_from(s@, i as int)),
        decreases n - i,
    {
        if space(chars[i]) {
            i = i + 1;
        } else {
            let ghost before = tok_views(toks@);
            match lex_one(&chars, i) {
                Ok(p) => {
                    let (t, j) = p;
                    let ghost tv = t@;
                    toks.push(t);
                    proof {
                        assert(tok_views(toks@) =~= before.push(tv));
                        if let Ok(ts) = tokens_from(s@, j as int) {
                            assert(before + (seq![tv] + ts) =~= tok_views(toks@) + ts);
                        }
                    }
                    i = j;
                },
                Err(m) => {
                    return Err(m);
                },
            }
        }
    }
    assert(tok_views(toks@) + Seq::<TokV>::empty() =~= tok_views(toks@));
    Ok(toks)
}

} // verus!
