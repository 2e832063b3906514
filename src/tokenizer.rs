//! Turning expression text into tokens, with a recursive model of the scan
//! (`lex_from`) that the executable tokenizer is proved to follow.

use vstd::prelude::*;

verus! {

/// The operators of the expression language.
#[derive(Debug, Clone, Copy, PartialEq, Eq, Structural)]
pub enum Operator {
    Plus,
    Minus,
    Multiply,
    Divide,
    Modulo,
    Power,
    Equal,
    NotEqual,
    Greater,
    Less,
    GreaterEqual,
    LessEqual,
    And,
    Or,
}

/// One classified lexical unit of an expression.
#[derive(Debug, Clone, PartialEq)]
pub enum Token {
    Identifier(String),
    Operator(Operator),
    OpenParenthesis,
    CloseParenthesis,
    StringLiteral(String),
    Function(String),
    Comma,
}

/// Mathematical model of a token: text payloads become character sequences.
pub enum TokenView {
    Identifier(Seq<char>),
    Operator(Operator),
    OpenParenthesis,
    CloseParenthesis,
    StringLiteral(Seq<char>),
    Function(Seq<char>),
    Comma,
}

impl View for Token {
    type V = TokenView;

    open spec fn view(&self) -> TokenView {
        match self {
            Token::Identifier(s) => TokenView::Identifier(s@),
            Token::Operator(op) => TokenView::Operator(*op),
            Token::OpenParenthesis => TokenView::OpenParenthesis,
            Token::CloseParenthesis => TokenView::CloseParenthesis,
            Token::StringLiteral(s) => TokenView::StringLiteral(s@),
            Token::Function(s) => TokenView::Function(s@),
            Token::Comma => TokenView::Comma,
        }
    }
}

/// The ways tokenization can fail; the first failure ends the scan.
#[derive(Debug, Clone, Copy, PartialEq, Eq, Structural)]
pub enum TokenizerError {
    /// A character that begins no valid token, such as a lone `=`.
    UnexpectedChar(char),
    /// The input ended right after an escaping backslash.
    UnexpectedEndOfString,
}

/// The name of an operator, as its variant is written.
pub open spec fn operator_name(op: Operator) -> Seq<char> {
    match op {
        Operator::Plus => "Plus"@,
        Operator::Minus => "Minus"@,
        Operator::Multiply => "Multiply"@,
        Operator::Divide => "Divide"@,
        Operator::Modulo => "Modulo"@,
        Operator::Power => "Power"@,
        Operator::Equal => "Equal"@,
        Operator::NotEqual => "NotEqual"@,
        Operator::Greater => "Greater"@,
        Operator::Less => "Less"@,
        Operator::GreaterEqual => "GreaterEqual"@,
        Operator::LessEqual => "LessEqual"@,
        Operator::And => "And"@,
        Operator::Or => "Or"@,
    }
}

/// The characters that stand for an operator in an expression.
pub open spec fn operator_lexeme(op: Operator) -> Seq<char> {
    match op {
        Operator::Plus => seq!['+'],
        Operator::Minus => seq!['-'],
        Operator::Multiply => seq!['*'],
        Operator::Divide => seq!['/'],
        Operator::Modulo => seq!['%'],
        Operator::Power => seq!['^'],
        Operator::Equal => seq!['=', '='],
        Operator::NotEqual => seq!['!', '='],
        Operator::Greater => seq!['>'],
        Operator::Less => seq!['<'],
        Operator::GreaterEqual => seq!['>', '='],
        Operator::LessEqual => seq!['<', '='],
        Operator::And => seq!['&', '&'],
        Operator::Or => seq!['|', '|'],
    }
}

/// How a token is displayed: names for operators, quotes around string literals.
pub open spec fn display_text(t: TokenView) -> Seq<char> {
    match t {
        TokenView::Identifier(s) => s,
        TokenView::Operator(op) => operator_name(op),
        TokenView::OpenParenthesis => seq!['('],
        TokenView::CloseParenthesis => seq![')'],
        TokenView::StringLiteral(s) => seq!['"'] + s + seq!['"'],
        TokenView::Function(s) => s,
        TokenView::Comma => seq![','],
    }
}

/// The minimal source text of a token: operators and punctuation as written,
/// names as they are, string literals between quotes.
pub open spec fn lexeme_of(t: TokenView) -> Seq<char> {
    match t {
        TokenView::Operator(op) => operator_lexeme(op),
        _ => display_text(t),
    }
}

impl Operator {
    /// The name of the operator, as its variant is written.
    pub fn name(&self) -> (r: &'static str)
        ensures
            r@ == operator_name(*self),
    {
        match self {
            Operator::Plus => "Plus",
            Operator::Minus => "Minus",
            Operator::Multiply => "Multiply",
            Operator::Divide => "Divide",
            Operator::Modulo => "Modulo",
            Operator::Power => "Power",
            Operator::Equal => "Equal",
            Operator::NotEqual => "NotEqual",
            Operator::Greater => "Greater",
            Operator::Less => "Less",
            Operator::GreaterEqual => "GreaterEqual",
            Operator::LessEqual => "LessEqual",
            Operator::And => "And",
            Operator::Or => "Or",
        }
    }

    /// The characters that stand for the operator in an expression.
    pub fn symbol(&self) -> (r: &'static str)
        ensures
            r@ == operator_lexeme(*self),
    {
        match self {
            Operator::Plus => {
                proof {
                    reveal_strlit("+");
                }
                "+"
            },
            Operator::Minus => {
                proof {
                    reveal_strlit("-");
                }
                "-"
            },
            Operator::Multiply => {
                proof {
                    reveal_strlit("*");
                }
                "*"
            },
            Operator::Divide => {
                proof {
                    reveal_strlit("/");
                }
                "/"
            },
            Operator::Modulo => {
                proof {
                    reveal_strlit("%");
                }
                "%"
            },
            Operator::Power => {
                proof {
                    reveal_strlit("^");
                }
                "^"
            },
            Operator::Equal => {
                proof {
                    reveal_strlit("==");
                }
                "=="
            },
            Operator::NotEqual => {
                proof {
                    reveal_strlit("!=");
                }
                "!="
            },
            Operator::Greater => {
                proof {
                    reveal_strlit(">");
                }
                ">"
            },
            Operator::Less => {
                proof {
                    reveal_strlit("<");
                }
                "<"
            },
            Operator::GreaterEqual => {
                proof {
                    reveal_strlit(">=");
                }
                ">="
            },
            Operator::LessEqual => {
                proof {
                    reveal_strlit("<=");
                }
                "<="
            },
            Operator::And => {
                proof {
                    reveal_strlit("&&");
                }
                "&&"
            },
            Operator::Or => {
                proof {
                    reveal_strlit("||");
                }
                "||"
            },
        }
    }
}

impl Token {
    /// The text shown for the token: the name of an operator, the text of an
    /// identifier or function, a string literal between double quotes.
    pub fn to_string(&self) -> (r: String)
        ensures
            r@ == display_text(self@),
    {
        proof {
            reveal_strlit("(");
            reveal_strlit(")");
            reveal_strlit(",");
            reveal_strlit("\"");
        }
        match self {
            Token::Identifier(s) => s.clone(),
            Token::Operator(op) => String::from_str(op.name()),
            Token::OpenParenthesis => String::from_str("("),
            Token::CloseParenthesis => String::from_str(")"),
            Token::StringLiteral(s) => {
                let mut r = String::from_str("\"");
                r.append(s.as_str());
                r.append("\"");
                r
            },
            Token::Function(s) => s.clone(),
            Token::Comma => String::from_str(","),
        }
    }

    /// The minimal source text of the token.
    pub fn lexeme(&self) -> (r: String)
        ensures
            r@ == lexeme_of(self@),
    {
        match self {
            Token::Operator(op) => String::from_str(op.symbol()),
            _ => self.to_string(),
        }
    }
}

/// Whether `char::is_alphanumeric` holds of a character (Unicode-aware).
pub uninterp spec fn alphanumeric(c: char) -> bool;

/// Relies on `char::is_alphanumeric`, whose answer depends on the character alone.
#[verifier::external_body]
fn is_alphanumeric(c: char) -> (r: bool)
    ensures
        r == alphanumeric(c),
{
    c.is_alphanumeric()
}

/// Relies on `String::push`: appends one character at the end.
#[verifier::external_body]
fn push_char(s: &mut String, c: char)
    ensures
        final(s)@ == old(s)@.push(c),
{
    s.push(c)
}

/// The token of a character that always stands alone: a parenthesis, a comma,
/// or one of the six arithmetic operators.
pub open spec fn single_char_token(c: char) -> Option<TokenView> {
    if c == '(' {
        Some(TokenView::OpenParenthesis)
    } else if c == ')' {
        Some(TokenView::CloseParenthesis)
    } else if c == ',' {
        Some(TokenView::Comma)
    } else if c == '+' {
        Some(TokenView::Operator(Operator::Plus))
    } else if c == '-' {
        Some(TokenView::Operator(Operator::Minus))
    } else if c == '*' {
        Some(TokenView::Operator(Operator::Multiply))
    } else if c == '/' {
        Some(TokenView::Operator(Operator::Divide))
    } else if c == '%' {
        Some(TokenView::Operator(Operator::Modulo))
    } else if c == '^' {
        Some(TokenView::Operator(Operator::Power))
    } else {
        None
    }
}

/// Characters that extend an identifier: alphanumerics, `_` and `.`.
pub open spec fn is_word_char(c: char, alnum: bool) -> bool {
    alnum || c == '_' || c == '.'
}

/// The character that an escape `\c` stands for inside a string literal.
pub open spec fn unescape(c: char) -> char {
    if c == 'n' {
        '\n'
    } else if c == 't' {
        '\t'
    } else {
        c
    }
}

/// Scans the body of a string literal from position `i`, with `acc` decoded so far.
/// Gives the decoded text and the position after the closing quote (or the end).
pub open spec fn scan_string_from(s: Seq<char>, i: int, acc: Seq<char>) -> Result<
    (Seq<char>, int),
    TokenizerError,
>
    decreases s.len() - i,
{
    if i >= s.len() {
        Ok((acc, i))
    } else if s[i] == '\\' {
        if i + 1 >= s.len() {
            Err(TokenizerError::UnexpectedEndOfString)
        } else {
            scan_string_from(s, i + 2, acc.push(unescape(s[i + 1])))
        }
    } else if s[i] == '"' {
        Ok((acc, i + 1))
    } else {
        scan_string_from(s, i + 1, acc.push(s[i]))
    }
}

/// Accumulates identifier characters from position `i`, with `acc` taken so far;
/// a backslash takes the character after it literally.
/// Gives the text and the position of the first character not taken.
pub open spec fn scan_word_from(s: Seq<char>, w: Seq<bool>, i: int, acc: Seq<char>) -> Result<
    (Seq<char>, int),
    TokenizerError,
>
    decreases s.len() - i,
{
    if i >= s.len() {
        Ok((acc, i))
    } else if is_word_char(s[i], w[i]) {
        scan_word_from(s, w, i + 1, acc.push(s[i]))
    } else if s[i] == '\\' {
        if i + 1 >= s.len() {
            Err(TokenizerError::UnexpectedEndOfString)
        } else {
            scan_word_from(s, w, i + 2, acc.push(s[i + 1]))
        }
    } else {
        Ok((acc, i))
    }
}

/// The identifier scan that starts at position `i`. A first character that
/// cannot extend an identifier (a tab, `@`) is taken into it all the same.
pub open spec fn word_at(s: Seq<char>, w: Seq<bool>, i: int) -> Result<
    (Seq<char>, int),
    TokenizerError,
> {
    if is_word_char(s[i], w[i]) || s[i] == '\\' {
        scan_word_from(s, w, i, seq![])
    } else {
        scan_word_from(s, w, i + 1, seq![s[i]])
    }
}

/// `t` in front of the tokens of `r`, or the error of `r`.
pub open spec fn cons_token(t: TokenView, r: Result<Seq<TokenView>, TokenizerError>) -> Result<
    Seq<TokenView>,
    TokenizerError,
> {
    match r {
        Ok(ts) => Ok(seq![t] + ts),
        Err(e) => Err(e),
    }
}

/// The tokens of `s` from position `i` on, where `w[k]` tells whether `s[k]` is
/// alphanumeric; or the first error met.
pub open spec fn lex_from(s: Seq<char>, w: Seq<bool>, i: int) -> Result<
    Seq<TokenView>,
    TokenizerError,
>
    decreases s.len() - i,
{
    if i < 0 || i >= s.len() {
        Ok(seq![])
    } else {
        let c = s[i];
        let next_is = |d: char| i + 1 < s.len() && s[i + 1] == d;
        if c == ' ' {
            lex_from(s, w, i + 1)
        } else if single_char_token(c) is Some {
            cons_token(single_char_token(c)->0, lex_from(s, w, i + 1))
        } else if c == '=' || c == '!' {
            if next_is('=') {
                let op = if c == '=' {
                    Operator::Equal
                } else {
                    Operator::NotEqual
                };
                cons_token(TokenView::Operator(op), lex_from(s, w, i + 2))
            } else {
                Err(TokenizerError::UnexpectedChar(c))
            }
        } else if c == '<' || c == '>' {
            if next_is('=') {
                let op = if c == '<' {
                    Operator::LessEqual
                } else {
                    Operator::GreaterEqual
                };
                cons_token(TokenView::Operator(op), lex_from(s, w, i + 2))
            } else {
                let op = if c == '<' {
                    Operator::Less
                } else {
                    Operator::Greater
                };
                cons_token(TokenView::Operator(op), lex_from(s, w, i + 1))
            }
        } else if c == '&' || c == '|' {
            if next_is(c) {
                let op = if c == '&' {
                    Operator::And
                } else {
                    Operator::Or
                };
                cons_token(TokenView::Operator(op), lex_from(s, w, i + 2))
            } else {
                Err(TokenizerError::UnexpectedChar(c))
            }
        } else if c == '"' {
            match scan_string_from(s, i + 1, seq![]) {
                Ok((text, j)) => {
                    proof {
                        lemma_scan_string_bounds(s, i + 1, seq![]);
                    }
                    cons_token(TokenView::StringLiteral(text), lex_from(s, w, j))
                },
                Err(e) => Err(e),
            }
        } else {
            match word_at(s, w, i) {
                Ok((text, j)) => {
                    proof {
                        lemma_scan_word_bounds(s, w, i);
                    }
                    let t = if j < s.len() && s[j] == '(' {
                        TokenView::Function(text)
                    } else {
                        TokenView::Identifier(text)
                    };
                    cons_token(t, lex_from(s, w, j))
                },
                Err(e) => Err(e),
            }
        }
    }
}

/// The alphanumeric flag of each character of `s`.
pub open spec fn alphanumeric_flags(s: Seq<char>) -> Seq<bool> {
    s.map_values(|c: char| alphanumeric(c))
}

/// The tokens of the text `s`, or the first error met.
pub open spec fn tokens_of(s: Seq<char>) -> Result<Seq<TokenView>, TokenizerError> {
    lex_from(s, alphanumeric_flags(s), 0)
}

/// A string literal scan from `i` that succeeds ends between `i` and the end of the text.
pub proof fn lemma_scan_string_bounds(s: Seq<char>, i: int, acc: Seq<char>)
    requires
        0 <= i <= s.len(),
    ensures
        scan_string_from(s, i, acc) matches Ok((_, j)) ==> i <= j <= s.len(),
    decreases s.len() - i,
{
    if i < s.len() {
        if s[i] == '\\' {
            if i + 1 < s.len() {
                lemma_scan_string_bounds(s, i + 2, acc.push(unescape(s[i + 1])));
            }
        } else if s[i] != '"' {
            lemma_scan_string_bounds(s, i + 1, acc.push(s[i]));
        }
    }
}

/// An identifier scan from `i` that succeeds ends between `i` and the end of the text.
pub proof fn lemma_scan_word_from_bounds(s: Seq<char>, w: Seq<bool>, i: int, acc: Seq<char>)
    requires
        0 <= i <= s.len(),
    ensures
        scan_word_from(s, w, i, acc) matches Ok((_, j)) ==> i <= j <= s.len(),
    decreases s.len() - i,
{
    if i < s.len() {
        if is_word_char(s[i], w[i]) {
            lemma_scan_word_from_bounds(s, w, i + 1, acc.push(s[i]));
        } else if s[i] == '\\' {
            if i + 1 < s.len() {
                lemma_scan_word_from_bounds(s, w, i + 2, acc.push(s[i + 1]));
            }
        }
    }
}

/// The identifier token that starts at `i` takes at least one character.
pub proof fn lemma_scan_word_bounds(s: Seq<char>, w: Seq<bool>, i: int)
    requires
        0 <= i < s.len(),
    ensures
        word_at(s, w, i) matches Ok((_, j)) ==> i < j <= s.len(),
{
    if is_word_char(s[i], w[i]) {
        lemma_scan_word_from_bounds(s, w, i + 1, seq![].push(s[i]));
    } else if s[i] == '\\' {
        if i + 1 < s.len() {
            lemma_scan_word_from_bounds(s, w, i + 2, seq![].push(s[i + 1]));
        }
    } else {
        lemma_scan_word_from_bounds(s, w, i + 1, seq![s[i]]);
    }
}

/// The tokens of `p` in front of those of `r`, or the error of `r`.
pub open spec fn prefixed(p: Seq<TokenView>, r: Result<Seq<TokenView>, TokenizerError>) -> Result<
    Seq<TokenView>,
    TokenizerError,
> {
    match r {
        Ok(ts) => Ok(p + ts),
        Err(e) => Err(e),
    }
}

/// The models of a sequence of tokens.
pub open spec fn token_views(v: Seq<Token>) -> Seq<TokenView> {
    v.map_values(|t: Token| t@)
}

/// The model of a tokenization result.
pub open spec fn result_view(r: Result<Vec<Token>, TokenizerError>) -> Result<
    Seq<TokenView>,
    TokenizerError,
> {
    match r {
        Ok(v) => Ok(token_views(v@)),
        Err(e) => Err(e),
    }
}

/// The model of a scan result: the text and the position reached.
pub open spec fn scan_view(r: Result<(String, usize), TokenizerError>) -> Result<
    (Seq<char>, int),
    TokenizerError,
> {
    match r {
        Ok((text, j)) => Ok((text@, j as int)),
        Err(e) => Err(e),
    }
}

proof fn lemma_prefixed_cons(p: Seq<TokenView>, t: TokenView, r: Result<Seq<TokenView>, TokenizerError>)
    ensures
        prefixed(p, cons_token(t, r)) == prefixed(p.push(t), r),
{
    if let Ok(ts) = r {
        assert(p + (seq![t] + ts) =~= p.push(t) + ts);
    }
}

/// Reads a string literal whose body starts at `start`, just after the opening quote.
fn read_string(chars: &Vec<char>, start: usize) -> (r: Result<(String, usize), TokenizerError>)
    requires
        start <= chars.len(),
    ensures
        scan_view(r) == scan_string_from(chars@, start as int, seq![]),
{
    let mut text = String::new();
    let mut i: usize = start;
    while i < chars.len()
        invariant
            start <= i <= chars.len(),
            scan_string_from(chars@, start as int, seq![]) == scan_string_from(chars@, i as int, text@),
        decreases chars.len() - i,
    {
        let c = chars[i];
        if c == '\\' {
            if i + 1 >= chars.len() {
                return Err(TokenizerError::UnexpectedEndOfString);
            }
            let e = chars[i + 1];
            let decoded = if e == 'n' {
                '\n'
            } else if e == 't' {
                '\t'
            } else {
                e
            };
            push_char(&mut text, decoded);
            i = i + 2;
        } else if c == '"' {
            return Ok((text, i + 1));
        } else {
            push_char(&mut text, c);
            i = i + 1;
        }
    }
    Ok((text, i))
}

/// Reads an identifier that starts at `start`.
fn read_word(chars: &Vec<char>, alphanumeric: &Vec<bool>, start: usize) -> (r: Result<
    (String, usize),
    TokenizerError,
>)
    requires
        start < chars.len(),
        alphanumeric.len() == chars.len(),
    ensures
        scan_view(r) == word_at(chars@, alphanumeric@, start as int),
{
    let mut text = String::new();
    let mut i: usize = start;
    let first = chars[start];
    if !(alphanumeric[start] || first == '_' || first == '.' || first == '\\') {
        push_char(&mut text, first);
        i = start + 1;
    }
    while i < chars.len()
        invariant
            start <= i <= chars.len(),
            alphanumeric.len() == chars.len(),
            word_at(chars@, alphanumeric@, start as int) == scan_word_from(
                chars@,
                alphanumeric@,
                i as int,
                text@,
            ),
        decreases chars.len() - i,
    {
        let c = chars[i];
        if alphanumeric[i] || c == '_' || c == '.' {
            push_char(&mut text, c);
            i = i + 1;
        } else if c == '\\' {
            if i + 1 >= chars.len() {
                return Err(TokenizerError::UnexpectedEndOfString);
            }
            push_char(&mut text, chars[i + 1]);
            i = i + 2;
        } else {
            return Ok((text, i));
        }
    }
    Ok((text, i))
}

/// Tokenizes the characters `chars`, where `alphanumeric[k]` tells whether
/// `chars[k]` is alphanumeric. One left-to-right pass with one character of
/// lookahead; the first error ends it and no tokens are returned with it.
pub fn tokenize_classified(chars: &Vec<char>, alphanumeric: &Vec<bool>) -> (r: Result<
    Vec<Token>,
    TokenizerError,
>)
    requires
        alphanumeric.len() == chars.len(),
    ensures
        result_view(r) == lex_from(chars@, alphanumeric@, 0),
{
    let n = chars.len();
    let mut tokens: Vec<Token> = Vec::new();
    let mut pos: usize = 0;
    assert(token_views(tokens@) =~= seq![]);
    while pos < n
        invariant
            n == chars.len(),
            alphanumeric.len() == n,
            pos <= n,
            lex_from(chars@, alphanumeric@, 0) == prefixed(
                token_views(tokens@),
                lex_from(chars@, alphanumeric@, pos as int),
            ),
        decreases n - pos,
    {
        let c = chars[pos];
        if c == ' ' {
            pos = pos + 1;
            continue;
        }
        let next_is_eq = pos + 1 < n && chars[pos + 1] == '=';
        let (token, next) = match c {
            '(' => (Token::OpenParenthesis, pos + 1),
            ')' => (Token::CloseParenthesis, pos + 1),
            ',' => (Token::Comma, pos + 1),
            '+' => (Token::Operator(Operator::Plus), pos + 1),
            '-' => (Token::Operator(Operator::Minus), pos + 1),
            '*' => (Token::Operator(Operator::Multiply), pos + 1),
            '/' => (Token::Operator(Operator::Divide), pos + 1),
            '%' => (Token::Operator(Operator::Modulo), pos + 1),
            '^' => (Token::Operator(Operator::Power), pos + 1),
            '=' => {
                if !next_is_eq {
                    return Err(TokenizerError::UnexpectedChar('='));
                }
                (Token::Operator(Operator::Equal), pos + 2)
            },
            '!' => {
                if !next_is_eq {
                    return Err(TokenizerError::UnexpectedChar('!'));
                }
                (Token::Operator(Operator::NotEqual), pos + 2)
            },
            '<' => {
                if next_is_eq {
                    (Token::Operator(Operator::LessEqual), pos + 2)
                } else {
                    (Token::Operator(Operator::Less), pos + 1)
                }
            },
            '>' => {
                if next_is_eq {
                    (Token::Operator(Operator::GreaterEqual), pos + 2)
                } else {
                    (Token::Operator(Operator::Greater), pos + 1)
                }
            },
            '&' | '|' => {
                if !(pos + 1 < n && chars[pos + 1] == c) {
                    return Err(TokenizerError::UnexpectedChar(c));
                }
                let op = if c == '&' {
                    Operator::And
                } else {
                    Operator::Or
                };
                (Token::Operator(op), pos + 2)
            },
            '"' => {
                proof {
                    lemma_scan_string_bounds(chars@, pos + 1, seq![]);
                }
                match read_string(chars, pos + 1) {
                    Ok((text, j)) => (Token::StringLiteral(text), j),
                    Err(e) => {
                        return Err(e);
                    },
                }
            },
            _ => {
                proof {
                    lemma_scan_word_bounds(chars@, alphanumeric@, pos as int);
                }
                match read_word(chars, alphanumeric, pos) {
                    Ok((text, j)) => {
                        if j < n && chars[j] == '(' {
                            (Token::Function(text), j)
                        } else {
                            (Token::Identifier(text), j)
                        }
                    },
                    Err(e) => {
                        return Err(e);
                    },
                }
            },
        };
        proof {
            lemma_prefixed_cons(token_views(tokens@), token@, lex_from(chars@, alphanumeric@, next as int));
        }
        let ghost before = tokens@;
        tokens.push(token);
        assert(token_views(tokens@) =~= token_views(before).push(token@));
        pos = next;
    }
    assert(token_views(tokens@) + seq![] =~= token_views(tokens@));
    Ok(tokens)
}

/// Tokenizes an expression: the tokens of `expression` in order, or the first
/// lexical error met. Only the plain space separates tokens; any other
/// character without a meaning of its own (a tab, `@`) starts an identifier.
pub fn tokenize(expression: &str) -> (r: Result<Vec<Token>, TokenizerError>)
    ensures
        result_view(r) == tokens_of(expression@),
{
    let mut chars: Vec<char> = Vec::new();
    let mut flags: Vec<bool> = Vec::new();
    for c in it: expression.chars()
        invariant
            chars@ == it.seq().take(it.index() as int),
            flags@ == alphanumeric_flags(chars@),
    {
        chars.push(c);
        flags.push(is_alphanumeric(c));
        assert(flags@ =~= alphanumeric_flags(chars@));
    }
    assert(chars@ =~= expression@);
    tokenize_classified(&chars, &flags)
}

/// Tokens that are written the same way every time: operators and punctuation.
pub open spec fn is_symbol_token(t: TokenView) -> bool {
    t is Operator || t is OpenParenthesis || t is CloseParenthesis || t is Comma
}

/// The source text of an operator or a punctuation mark.
pub open spec fn is_symbol_lexeme(l: Seq<char>) -> bool {
    exists|t: TokenView| is_symbol_token(t) && #[trigger] lexeme_of(t) == l
}

/// The minimal source texts of a sequence of tokens.
pub open spec fn lexemes(ts: Seq<TokenView>) -> Seq<Seq<char>> {
    ts.map_values(|t: TokenView| lexeme_of(t))
}

/// The texts of `ls` joined with single spaces.
pub open spec fn join_spaced(ls: Seq<Seq<char>>) -> Seq<char>
    decreases ls.len(),
{
    if ls.len() == 0 {
        seq![]
    } else if ls.len() == 1 {
        ls[0]
    } else {
        ls[0] + seq![' '] + join_spaced(ls.drop_first())
    }
}

/// Symbol tokens written out with single spaces from position `i` of `s` on
/// are read back as themselves, whatever the alphanumeric flags.
pub proof fn lemma_lex_spaced_symbols(s: Seq<char>, w: Seq<bool>, i: int, ts: Seq<TokenView>)
    requires
        0 <= i <= s.len(),
        forall|k: int| 0 <= k < ts.len() ==> is_symbol_token(#[trigger] ts[k]),
        s.subrange(i, s.len() as int) == join_spaced(lexemes(ts)),
    ensures
        lex_from(s, w, i) == Ok::<Seq<TokenView>, TokenizerError>(ts),
    decreases ts.len(),
{
    let rest_text = s.subrange(i, s.len() as int);
    if ts.len() == 0 {
        assert(rest_text.len() == 0);
        assert(ts =~= seq![]);
    } else {
        let t = ts[0];
        let l = lexeme_of(t);
        let rest = ts.drop_first();
        assert(lexemes(rest) =~= lexemes(ts).drop_first());
        assert(is_symbol_token(t));
        assert(1 <= l.len() <= 2) by {
            if let TokenView::Operator(op) = t {
                assert(1 <= operator_lexeme(op).len() <= 2);
            }
        }
        let m = i + l.len();
        let tail = join_spaced(lexemes(rest));
        if ts.len() == 1 {
            assert(rest_text == l);
        } else {
            assert(rest_text == l + seq![' '] + tail);
            assert(rest_text.len() == l.len() + 1 + tail.len());
        }
        assert(i + l.len() <= s.len());
        assert(s[i] == l[0]) by {
            assert(rest_text[0] == s[i]);
        }
        if l.len() == 2 {
            assert(s[i + 1] == l[1]) by {
                assert(rest_text[1] == s[i + 1]);
            }
        }
        if ts.len() == 1 {
            assert(m == s.len());
            assert(lexemes(rest).len() == 0);
            assert(s.subrange(m, s.len() as int) =~= tail);
            lemma_lex_spaced_symbols(s, w, m, rest);
        } else {
            assert(s[m] == ' ') by {
                assert(rest_text[l.len() as int] == s[m]);
            }
            let after = s.subrange(m + 1, s.len() as int);
            assert(after.len() == tail.len());
            assert forall|k: int| 0 <= k < tail.len() implies #[trigger] after[k] == tail[k] by {
                assert(rest_text[l.len() + 1 + k] == s[m + 1 + k]);
                assert((l + seq![' '] + tail)[l.len() + 1 + k] == tail[k]);
            }
            assert(s.subrange(m + 1, s.len() as int) =~= tail);
            lemma_lex_spaced_symbols(s, w, m + 1, rest);
            assert(lex_from(s, w, m) == lex_from(s, w, m + 1));
        }
        assert(lex_from(s, w, i) == cons_token(t, lex_from(s, w, m)));
        assert(seq![t] + rest =~= ts);
    }
}

/// Any text made of operator and punctuation lexemes separated by single spaces
/// tokenizes without error, and joining the lexemes of its tokens with single
/// spaces gives the text back.
pub proof fn lemma_symbols_round_trip(ls: Seq<Seq<char>>)
    requires
        forall|k: int| 0 <= k < ls.len() ==> is_symbol_lexeme(#[trigger] ls[k]),
    ensures
        tokens_of(join_spaced(ls)) matches Ok(ts) && join_spaced(lexemes(ts)) == join_spaced(ls),
{
    let ts = Seq::new(
        ls.len(),
        |k: int| choose|t: TokenView| is_symbol_token(t) && lexeme_of(t) == ls[k],
    );
    assert forall|k: int| 0 <= k < ts.len() implies is_symbol_token(#[trigger] ts[k]) && lexeme_of(ts[k]) == ls[k] by {
        assert(is_symbol_lexeme(ls[k]));
    }
    assert(lexemes(ts) =~= ls);
    let s = join_spaced(ls);
    assert(s.subrange(0, s.len() as int) =~= s);
    lemma_lex_spaced_symbols(s, alphanumeric_flags(s), 0, ts);
}

/// A text of one parenthesis, comma or arithmetic operator gives exactly the
/// one token of that character.
pub proof fn lemma_single_char_input(c: char)
    requires
        single_char_token(c) is Some,
    ensures
        tokens_of(seq![c]) == Ok::<Seq<TokenView>, TokenizerError>(seq![single_char_token(c)->0]),
{
    let s = seq![c];
    let w = alphanumeric_flags(s);
    assert(lex_from(s, w, 1) == Ok::<Seq<TokenView>, TokenizerError>(seq![]));
    assert(seq![single_char_token(c)->0] + seq![] =~= seq![single_char_token(c)->0]);
}

/// Characters that the scan handles by a branch of their own rather than as
/// the start of an identifier.
pub open spec fn has_own_branch(c: char) -> bool {
    ||| c == ' '
    ||| single_char_token(c) is Some
    ||| c == '=' || c == '!' || c == '<' || c == '>' || c == '&' || c == '|'
    ||| c == '"'
}

proof fn lemma_string_ends_in_backslash(s: Seq<char>, i: int, acc: Seq<char>)
    requires
        1 <= i < s.len(),
        s.last() == '\\',
        forall|k: int| i <= k < s.len() - 1 ==> #[trigger] s[k] != '\\' && s[k] != '"',
    ensures
        scan_string_from(s, i, acc) == Err::<(Seq<char>, int), TokenizerError>(
            TokenizerError::UnexpectedEndOfString,
        ),
    decreases s.len() - i,
{
    if i < s.len() - 1 {
        lemma_string_ends_in_backslash(s, i + 1, acc.push(s[i]));
    }
}

/// A string literal left open whose text ends in a backslash that escapes
/// nothing fails with `UnexpectedEndOfString`.
pub proof fn lemma_open_string_trailing_backslash(body: Seq<char>)
    requires
        forall|k: int| 0 <= k < body.len() ==> #[trigger] body[k] != '\\' && body[k] != '"',
    ensures
        tokens_of(seq!['"'] + body + seq!['\\']) == Err::<Seq<TokenView>, TokenizerError>(
            TokenizerError::UnexpectedEndOfString,
        ),
{
    let s = seq!['"'] + body + seq!['\\'];
    assert forall|k: int| 1 <= k < s.len() - 1 implies #[trigger] s[k] != '\\' && s[k] != '"' by {
        assert(s[k] == body[k - 1]);
    }
    lemma_string_ends_in_backslash(s, 1, seq![]);
}

proof fn lemma_word_ends_in_backslash(s: Seq<char>, w: Seq<bool>, i: int, acc: Seq<char>)
    requires
        0 <= i < s.len(),
        w.len() == s.len(),
        s.last() == '\\',
        !w.last(),
        forall|k: int| i <= k < s.len() - 1 ==> is_word_char(#[trigger] s[k], w[k]),
    ensures
        scan_word_from(s, w, i, acc) == Err::<(Seq<char>, int), TokenizerError>(
            TokenizerError::UnexpectedEndOfString,
        ),
    decreases s.len() - i,
{
    if i < s.len() - 1 {
        lemma_word_ends_in_backslash(s, w, i + 1, acc.push(s[i]));
    }
}

/// An identifier followed by a backslash that ends the text, so that it
/// escapes nothing, fails with `UnexpectedEndOfString` (the backslash being,
/// as Unicode has it, no alphanumeric character).
pub proof fn lemma_identifier_trailing_backslash(name: Seq<char>)
    requires
        !alphanumeric('\\'),
        forall|k: int| 0 <= k < name.len() ==> is_word_char(#[trigger] name[k], alphanumeric(name[k])),
        name.len() > 0 ==> !has_own_branch(name[0]),
    ensures
        tokens_of(name + seq!['\\']) == Err::<Seq<TokenView>, TokenizerError>(
            TokenizerError::UnexpectedEndOfString,
        ),
{
    let s = name + seq!['\\'];
    let w = alphanumeric_flags(s);
    assert forall|k: int| 0 <= k < s.len() - 1 implies is_word_char(#[trigger] s[k], w[k]) by {
        assert(s[k] == name[k]);
    }
    lemma_word_ends_in_backslash(s, w, 0, seq![]);
    assert(s[0] == '\\' || is_word_char(s[0], w[0]));
}

} // verus!
