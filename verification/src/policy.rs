//! The expressions by which layouts choose devices: their tokens, their grammar and their values.

use vstd::prelude::*;

use crate::numeral::{int_of_text, int_text, int_to_text, parse_int};
use crate::outside::{regex_compiles, regex_find, regex_found, regex_is_match};
use crate::text::{
    chars_of, is_before, lemma_text_before, same_text, text_before, text_of, text_order_is_total,
};
use crate::text_map::TextMap;

verus! {

/// A value of an expression. A name that the context does not hold has the value `Missing`.
#[derive(Debug)]
pub enum Value {
    Int(i64),
    Str(String),
    Bool(bool),
    Missing,
}

/// What a value is.
pub enum ValueModel {
    Int(int),
    Str(Seq<char>),
    Bool(bool),
    Missing,
}

impl DeepView for Value {
    type V = ValueModel;

    open spec fn deep_view(&self) -> ValueModel {
        match self {
            Value::Int(value) => ValueModel::Int(*value as int),
            Value::Str(value) => ValueModel::Str(value@),
            Value::Bool(value) => ValueModel::Bool(*value),
            Value::Missing => ValueModel::Missing,
        }
    }
}

/// A comparison.
#[derive(Debug, Clone, Copy, PartialEq, Eq, Structural)]
pub enum CompareOp {
    Eq,
    Ne,
    Gt,
    Ge,
    Lt,
    Le,
}

/// An expression.
#[derive(Debug)]
pub enum Expr {
    Value(Value),
    Identifier(String),
    FunctionCall { name: String, args: Vec<Expr> },
    Compare { left: Box<Expr>, op: CompareOp, right: Box<Expr> },
    And(Box<Expr>, Box<Expr>),
    Or(Box<Expr>, Box<Expr>),
}

/// What an expression is.
pub enum ExprModel {
    Value(ValueModel),
    Identifier(Seq<char>),
    FunctionCall { name: Seq<char>, args: Seq<ExprModel> },
    Compare { left: Box<ExprModel>, op: CompareOp, right: Box<ExprModel> },
    And(Box<ExprModel>, Box<ExprModel>),
    Or(Box<ExprModel>, Box<ExprModel>),
}

impl Expr {
    /// What the expression is.
    pub open spec fn model(self) -> ExprModel
        decreases self,
    {
        match self {
            Expr::Value(value) => ExprModel::Value(value.deep_view()),
            Expr::Identifier(name) => ExprModel::Identifier(name@),
            Expr::FunctionCall { name, args } => ExprModel::FunctionCall {
                name: name@,
                args: Seq::new(
                    args@.len(),
                    |i: int|
                        if 0 <= i < args@.len() {
                            args@[i].model()
                        } else {
                            arbitrary()
                        },
                ),
            },
            Expr::Compare { left, op, right } => ExprModel::Compare {
                left: Box::new(left.model()),
                op,
                right: Box::new(right.model()),
            },
            Expr::And(left, right) => ExprModel::And(
                Box::new(left.model()),
                Box::new(right.model()),
            ),
            Expr::Or(left, right) => ExprModel::Or(Box::new(left.model()), Box::new(right.model())),
        }
    }
}

/// What each expression of a list is.
pub open spec fn models(list: Seq<Expr>) -> Seq<ExprModel> {
    Seq::new(list.len(), |i: int| list[i].model())
}

/// What can go wrong with an expression.
#[derive(Debug, Clone, Copy, PartialEq, Eq, Structural)]
pub enum PolicyError {
    /// An equals sign without a second one behind it.
    ExpectedEq,
    /// An exclamation mark without an equals sign behind it.
    ExpectedNe,
    /// A text that ends with a backslash.
    UnterminatedEscape,
    /// A row of digits and minus signs that is no number of 64 bits.
    InvalidNumber,
    /// A character that starts no token.
    UnexpectedCharacter(char),
    /// A token where an operand should stand.
    UnexpectedToken,
    /// No token where an operand should stand.
    UnexpectedEnd,
    /// No closing parenthesis behind an expression in parentheses.
    ExpectedCloseParen,
    /// Neither a comma nor a closing parenthesis behind an argument.
    ExpectedComma,
    /// Tokens behind a whole expression.
    TrailingTokens,
    /// A value other than a boolean where a boolean is needed.
    ExpectedBoolean,
    /// A pattern that is no regular expression.
    InvalidPattern,
    /// A function that is not known, or arguments that it does not take.
    UnsupportedCall,
    /// An order between booleans.
    UnsupportedBooleanComparison,
    /// A comparison of values of two kinds.
    UnsupportedComparison,
}

/// A token that is the same wherever it stands.
#[derive(Debug, Clone, Copy, PartialEq, Eq, Structural)]
pub enum Mark {
    And,
    Or,
    Eq,
    Ne,
    Gt,
    Ge,
    Lt,
    Le,
    LParen,
    RParen,
    Comma,
}

#[derive(Debug)]
enum Token {
    Identifier(String),
    Number(i64),
    Text(String),
    Mark(Mark),
}

/// What a token is.
pub enum TokenModel {
    Identifier(Seq<char>),
    Number(int),
    Text(Seq<char>),
    Mark(Mark),
}

impl DeepView for Token {
    type V = TokenModel;

    closed spec fn deep_view(&self) -> TokenModel {
        match self {
            Token::Identifier(name) => TokenModel::Identifier(name@),
            Token::Number(value) => TokenModel::Number(*value as int),
            Token::Text(text) => TokenModel::Text(text@),
            Token::Mark(mark) => TokenModel::Mark(*mark),
        }
    }
}

// ---------------------------------------------------------------------------------------------
// Tokens
// ---------------------------------------------------------------------------------------------

pub open spec fn blank(c: char) -> bool {
    c == ' ' || c == '\t' || c == '\r' || c == '\n'
}

/// A character of a number.
pub open spec fn number_char(c: char) -> bool {
    c == '-' || '0' <= c <= '9'
}

/// A character that a word starts with.
pub open spec fn word_start(c: char) -> bool {
    c == '_' || 'a' <= c <= 'z' || 'A' <= c <= 'Z'
}

/// A character of a word.
pub open spec fn word_char(c: char) -> bool {
    word_start(c) || '0' <= c <= '9'
}

/// Where the characters of the class that start at `i` end.
pub open spec fn run_end(s: Seq<char>, i: int, class: spec_fn(char) -> bool) -> int
    decreases s.len() - i,
{
    if 0 <= i < s.len() && class(s[i]) {
        run_end(s, i + 1, class)
    } else {
        i
    }
}

/// The text from behind its opening quote to its closing quote, or to the end if there is none, and
/// where it ends. A backslash stands for the character behind it.
pub open spec fn quoted(s: Seq<char>, i: int) -> Result<(Seq<char>, int), PolicyError>
    decreases s.len() - i,
{
    if i < 0 || i >= s.len() {
        Ok((Seq::empty(), i))
    } else if s[i] == '"' {
        Ok((Seq::empty(), i + 1))
    } else if s[i] == '\\' {
        if i + 1 >= s.len() {
            Err(PolicyError::UnterminatedEscape)
        } else {
            match quoted(s, i + 2) {
                Ok((rest, end)) => Ok((seq![s[i + 1]] + rest, end)),
                Err(error) => Err(error),
            }
        }
    } else {
        match quoted(s, i + 1) {
            Ok((rest, end)) => Ok((seq![s[i]] + rest, end)),
            Err(error) => Err(error),
        }
    }
}

/// The token of a word: an operator, a text for `true` and `false`, or a name.
pub open spec fn word_token(word: Seq<char>) -> TokenModel {
    if word == "and"@ {
        TokenModel::Mark(Mark::And)
    } else if word == "or"@ {
        TokenModel::Mark(Mark::Or)
    } else if word == "true"@ || word == "false"@ {
        TokenModel::Text(word)
    } else {
        TokenModel::Identifier(word)
    }
}

/// The token that starts at `i`, or none for a blank, and where what was read ends.
pub open spec fn token_at(s: Seq<char>, i: int) -> Result<(Option<TokenModel>, int), PolicyError> {
    let c = s[i];
    let equals_next = i + 1 < s.len() && s[i + 1] == '=';
    if blank(c) {
        Ok((None, i + 1))
    } else if c == '(' {
        Ok((Some(TokenModel::Mark(Mark::LParen)), i + 1))
    } else if c == ')' {
        Ok((Some(TokenModel::Mark(Mark::RParen)), i + 1))
    } else if c == ',' {
        Ok((Some(TokenModel::Mark(Mark::Comma)), i + 1))
    } else if c == '=' {
        if equals_next {
            Ok((Some(TokenModel::Mark(Mark::Eq)), i + 2))
        } else {
            Err(PolicyError::ExpectedEq)
        }
    } else if c == '!' {
        if equals_next {
            Ok((Some(TokenModel::Mark(Mark::Ne)), i + 2))
        } else {
            Err(PolicyError::ExpectedNe)
        }
    } else if c == '>' {
        if equals_next {
            Ok((Some(TokenModel::Mark(Mark::Ge)), i + 2))
        } else {
            Ok((Some(TokenModel::Mark(Mark::Gt)), i + 1))
        }
    } else if c == '<' {
        if equals_next {
            Ok((Some(TokenModel::Mark(Mark::Le)), i + 2))
        } else {
            Ok((Some(TokenModel::Mark(Mark::Lt)), i + 1))
        }
    } else if c == '"' {
        match quoted(s, i + 1) {
            Ok((text, end)) => Ok((Some(TokenModel::Text(text)), end)),
            Err(error) => Err(error),
        }
    } else if number_char(c) {
        let end = run_end(s, i, |x: char| number_char(x));
        match int_of_text(s.subrange(i, end)) {
            Some(value) => Ok((Some(TokenModel::Number(value)), end)),
            None => Err(PolicyError::InvalidNumber),
        }
    } else if word_start(c) {
        let end = run_end(s, i, |x: char| word_char(x));
        Ok((Some(word_token(s.subrange(i, end))), end))
    } else {
        Err(PolicyError::UnexpectedCharacter(c))
    }
}

proof fn lemma_run_end(s: Seq<char>, i: int, class: spec_fn(char) -> bool)
    requires
        0 <= i <= s.len(),
    ensures
        i <= run_end(s, i, class) <= s.len(),
        i < s.len() && class(s[i]) ==> i < run_end(s, i, class),
    decreases s.len() - i,
{
    if i < s.len() && class(s[i]) {
        lemma_run_end(s, i + 1, class);
    }
}

proof fn lemma_quoted(s: Seq<char>, i: int)
    requires
        0 <= i <= s.len(),
    ensures
        quoted(s, i) matches Ok((_, end)) ==> i <= end <= s.len(),
    decreases s.len() - i,
{
    if i < s.len() && s[i] != '"' {
        if s[i] == '\\' {
            if i + 1 < s.len() {
                lemma_quoted(s, i + 2);
            }
        } else {
            lemma_quoted(s, i + 1);
        }
    }
}

pub proof fn lemma_token_at(s: Seq<char>, i: int)
    requires
        0 <= i < s.len(),
    ensures
        token_at(s, i) matches Ok((_, end)) ==> i < end <= s.len(),
{
    lemma_run_end(s, i, |x: char| number_char(x));
    lemma_run_end(s, i, |x: char| word_char(x));
    lemma_quoted(s, i + 1);
}

/// The tokens from `i` on, or what is wrong with the first character that no token can hold.
pub open spec fn tokens_from(s: Seq<char>, i: int) -> Result<Seq<TokenModel>, PolicyError>
    decreases s.len() - i,
{
    if i < 0 || i >= s.len() {
        Ok(Seq::empty())
    } else {
        proof {
            lemma_token_at(s, i);
        }
        match token_at(s, i) {
            Err(error) => Err(error),
            Ok((token, end)) => match tokens_from(s, end) {
                Err(error) => Err(error),
                Ok(rest) => Ok(
                    match token {
                        Some(token) => seq![token] + rest,
                        None => rest,
                    },
                ),
            },
        }
    }
}

/// The tokens of a text.
pub open spec fn tokens_of(s: Seq<char>) -> Result<Seq<TokenModel>, PolicyError> {
    tokens_from(s, 0)
}

fn scan_run(chars: &Vec<char>, from: usize, words: bool) -> (r: usize)
    requires
        from <= chars@.len(),
    ensures
        words ==> r == run_end(chars@, from as int, |x: char| word_char(x)),
        !words ==> r == run_end(chars@, from as int, |x: char| number_char(x)),
        from <= r <= chars@.len(),
{
    let ghost class = if words {
        |x: char| word_char(x)
    } else {
        |x: char| number_char(x)
    };
    let mut i: usize = from;
    while i < chars.len() && (chars[i] == '-' && !words || '0' <= chars[i] && chars[i] <= '9' || words
        && (chars[i] == '_' || 'a' <= chars[i] && chars[i] <= 'z' || 'A' <= chars[i] && chars[i]
        <= 'Z'))
        invariant
            from <= i <= chars@.len(),
            words ==> class == (|x: char| word_char(x)),
            !words ==> class == (|x: char| number_char(x)),
            run_end(chars@, from as int, class) == run_end(chars@, i as int, class),
        decreases chars@.len() - i,
    {
        i += 1;
    }
    i
}

fn scan_quoted(chars: &Vec<char>, from: usize) -> (r: Result<(String, usize), PolicyError>)
    requires
        from <= chars@.len(),
    ensures
        match r {
            Ok((text, end)) => quoted(chars@, from as int) == Ok::<(Seq<char>, int), PolicyError>(
                (text@, end as int),
            ) && from <= end <= chars@.len(),
            Err(error) => quoted(chars@, from as int) == Err::<(Seq<char>, int), PolicyError>(
                error,
            ),
        },
{
    let ghost whole = quoted(chars@, from as int);
    let mut text = String::new();
    let mut i: usize = from;
    while i < chars.len()
        invariant
            from <= i <= chars@.len(),
            match quoted(chars@, i as int) {
                Ok((rest, end)) => whole == Ok::<(Seq<char>, int), PolicyError>(
                    (text@ + rest, end),
                ),
                Err(error) => whole == Err::<(Seq<char>, int), PolicyError>(error),
            },
            whole == quoted(chars@, from as int),
        decreases chars@.len() - i,
    {
        let ghost before = text@;
        let ghost at = i as int;
        let c = chars[i];
        if c == '"' {
            assert(text@ + Seq::<char>::empty() =~= text@);
            return Ok((text, i + 1));
        }
        if c == '\\' {
            if i + 1 >= chars.len() {
                return Err(PolicyError::UnterminatedEscape);
            }
            text.push(chars[i + 1]);
            i += 2;
        } else {
            text.push(c);
            i += 1;
        }
        proof {
            if let Ok((rest, end)) = quoted(chars@, i as int) {
                let pushed = text@.last();
                assert(before + (seq![pushed] + rest) =~= text@ + rest);
            }
        }
    }
    assert(text@ + Seq::<char>::empty() =~= text@);
    Ok((text, i))
}

fn token_of_word(word: String) -> (r: Token)
    ensures
        r.deep_view() == word_token(word@),
{
    if same_text(word.as_str(), "and") {
        Token::Mark(Mark::And)
    } else if same_text(word.as_str(), "or") {
        Token::Mark(Mark::Or)
    } else if same_text(word.as_str(), "true") || same_text(word.as_str(), "false") {
        Token::Text(word)
    } else {
        Token::Identifier(word)
    }
}

fn next_token(chars: &Vec<char>, i: usize) -> (r: Result<(Option<Token>, usize), PolicyError>)
    requires
        i < chars@.len(),
    ensures
        match r {
            Ok((token, end)) => token_at(chars@, i as int) == Ok::<
                (Option<TokenModel>, int),
                PolicyError,
            >((token.deep_view(), end as int)) && i < end <= chars@.len(),
            Err(error) => token_at(chars@, i as int) == Err::<
                (Option<TokenModel>, int),
                PolicyError,
            >(error),
        },
{
    proof {
        lemma_token_at(chars@, i as int);
    }
    let c = chars[i];
    let length: usize = chars.len();
    let equals_next = i + 1 < length && chars[i + 1] == '=';
    if c == ' ' || c == '\t' || c == '\r' || c == '\n' {
        return Ok((None, i + 1));
    }
    if c == '(' {
        return Ok((Some(Token::Mark(Mark::LParen)), i + 1));
    }
    if c == ')' {
        return Ok((Some(Token::Mark(Mark::RParen)), i + 1));
    }
    if c == ',' {
        return Ok((Some(Token::Mark(Mark::Comma)), i + 1));
    }
    if c == '=' {
        if !equals_next {
            return Err(PolicyError::ExpectedEq);
        }
        return Ok((Some(Token::Mark(Mark::Eq)), i + 2));
    }
    if c == '!' {
        if !equals_next {
            return Err(PolicyError::ExpectedNe);
        }
        return Ok((Some(Token::Mark(Mark::Ne)), i + 2));
    }
    if c == '>' {
        if equals_next {
            return Ok((Some(Token::Mark(Mark::Ge)), i + 2));
        }
        return Ok((Some(Token::Mark(Mark::Gt)), i + 1));
    }
    if c == '<' {
        if equals_next {
            return Ok((Some(Token::Mark(Mark::Le)), i + 2));
        }
        return Ok((Some(Token::Mark(Mark::Lt)), i + 1));
    }
    if c == '"' {
        return match scan_quoted(chars, i + 1) {
            Ok((text, end)) => Ok((Some(Token::Text(text)), end)),
            Err(error) => Err(error),
        };
    }
    if c == '-' || '0' <= c && c <= '9' {
        let end = scan_run(chars, i, false);
        return match parse_int(chars, i, end) {
            Some(value) => Ok((Some(Token::Number(value)), end)),
            None => Err(PolicyError::InvalidNumber),
        };
    }
    if c == '_' || 'a' <= c && c <= 'z' || 'A' <= c && c <= 'Z' {
        let end = scan_run(chars, i, true);
        let word = text_of(chars, i, end);
        return Ok((Some(token_of_word(word)), end));
    }
    Err(PolicyError::UnexpectedCharacter(c))
}

/// The tokens of the text.
fn tokenize(input: &str) -> (r: Result<Vec<Token>, PolicyError>)
    ensures
        match r {
            Ok(tokens) => tokens_of(input@) == Ok::<Seq<TokenModel>, PolicyError>(
                tokens.deep_view(),
            ),
            Err(error) => tokens_of(input@) == Err::<Seq<TokenModel>, PolicyError>(error),
        },
{
    let chars = chars_of(input);
    let ghost whole = tokens_of(input@);
    let mut tokens: Vec<Token> = Vec::new();
    let mut i: usize = 0;
    proof {
        if let Ok(rest) = whole {
            assert(tokens.deep_view() + rest =~= rest);
        }
    }
    while i < chars.len()
        invariant
            i <= chars@.len(),
            chars@ == input@,
            whole == tokens_of(input@),
            match tokens_from(chars@, i as int) {
                Ok(rest) => whole == Ok::<Seq<TokenModel>, PolicyError>(tokens.deep_view() + rest),
                Err(error) => whole == Err::<Seq<TokenModel>, PolicyError>(error),
            },
        decreases chars@.len() - i,
    {
        let ghost before = tokens.deep_view();
        let (token, end) = match next_token(&chars, i) {
            Ok(step) => step,
            Err(error) => {
                return Err(error);
            },
        };
        if let Some(token) = token {
            tokens.push(token);
            proof {
                assert(tokens.deep_view() =~= before.push(token.deep_view()));
                if let Ok(rest) = tokens_from(chars@, end as int) {
                    assert(before + (seq![token.deep_view()] + rest) =~= tokens.deep_view() + rest);
                }
            }
        }
        i = end;
    }
    assert(tokens.deep_view() + Seq::<TokenModel>::empty() =~= tokens.deep_view());
    Ok(tokens)
}

// ---------------------------------------------------------------------------------------------
// Grammar
// ---------------------------------------------------------------------------------------------

/// What reading one part of an expression gives: the part and the index behind it.
pub type Parsed = Result<(ExprModel, int), PolicyError>;

/// Whether the mark stands at `i`.
pub open spec fn mark_at(t: Seq<TokenModel>, i: int, mark: Mark) -> bool {
    0 <= i < t.len() && t[i] == TokenModel::Mark(mark)
}

/// The comparison that a mark stands for.
pub open spec fn op_of(mark: Mark) -> Option<CompareOp> {
    match mark {
        Mark::Eq => Some(CompareOp::Eq),
        Mark::Ne => Some(CompareOp::Ne),
        Mark::Gt => Some(CompareOp::Gt),
        Mark::Ge => Some(CompareOp::Ge),
        Mark::Lt => Some(CompareOp::Lt),
        Mark::Le => Some(CompareOp::Le),
        _ => None,
    }
}

/// The comparison that stands at `i`, if one does.
pub open spec fn op_at(t: Seq<TokenModel>, i: int) -> Option<CompareOp> {
    if 0 <= i < t.len() {
        match t[i] {
            TokenModel::Mark(mark) => op_of(mark),
            _ => None,
        }
    } else {
        None
    }
}

/// A disjunction, which binds weakest and to the left. (Reading always goes ahead, as
/// `lemma_or_ahead` shows; the tests for it here only show that the definition is sound.)
pub open spec fn read_or(t: Seq<TokenModel>, i: int) -> Parsed
    decreases t.len() - i, 5int,
{
    match read_and(t, i) {
        Err(error) => Err(error),
        Ok((left, j)) => if i < j <= t.len() {
            read_or_rest(t, left, j)
        } else {
            Err(PolicyError::UnexpectedEnd)
        },
    }
}

/// What follows the first operand of a disjunction.
pub open spec fn read_or_rest(t: Seq<TokenModel>, left: ExprModel, i: int) -> Parsed
    decreases t.len() - i, 4int,
{
    if mark_at(t, i, Mark::Or) {
        match read_and(t, i + 1) {
            Err(error) => Err(error),
            Ok((right, j)) => if i < j <= t.len() {
                read_or_rest(t, ExprModel::Or(Box::new(left), Box::new(right)), j)
            } else {
                Err(PolicyError::UnexpectedEnd)
            },
        }
    } else {
        Ok((left, i))
    }
}

/// A conjunction, which binds to the left.
pub open spec fn read_and(t: Seq<TokenModel>, i: int) -> Parsed
    decreases t.len() - i, 3int,
{
    match read_compare(t, i) {
        Err(error) => Err(error),
        Ok((left, j)) => if i < j <= t.len() {
            read_and_rest(t, left, j)
        } else {
            Err(PolicyError::UnexpectedEnd)
        },
    }
}

/// What follows the first operand of a conjunction.
pub open spec fn read_and_rest(t: Seq<TokenModel>, left: ExprModel, i: int) -> Parsed
    decreases t.len() - i, 2int,
{
    if mark_at(t, i, Mark::And) {
        match read_compare(t, i + 1) {
            Err(error) => Err(error),
            Ok((right, j)) => if i < j <= t.len() {
                read_and_rest(t, ExprModel::And(Box::new(left), Box::new(right)), j)
            } else {
                Err(PolicyError::UnexpectedEnd)
            },
        }
    } else {
        Ok((left, i))
    }
}

/// One operand, or two with a comparison between them.
pub open spec fn read_compare(t: Seq<TokenModel>, i: int) -> Parsed
    decreases t.len() - i, 1int,
{
    match read_operand(t, i) {
        Err(error) => Err(error),
        Ok((left, j)) => if i < j <= t.len() {
            match op_at(t, j) {
                Some(op) => match read_operand(t, j + 1) {
                    Err(error) => Err(error),
                    Ok((right, k)) => Ok(
                        (
                            ExprModel::Compare { left: Box::new(left), op, right: Box::new(right) },
                            k,
                        ),
                    ),
                },
                None => Ok((left, j)),
            }
        } else {
            Err(PolicyError::UnexpectedEnd)
        },
    }
}

/// A number, a text, a name, a call, or an expression in parentheses.
pub open spec fn read_operand(t: Seq<TokenModel>, i: int) -> Parsed
    decreases t.len() - i, 0int,
{
    if i < 0 || i >= t.len() {
        Err(PolicyError::UnexpectedEnd)
    } else {
        match t[i] {
            TokenModel::Number(value) => Ok((ExprModel::Value(ValueModel::Int(value)), i + 1)),
            TokenModel::Text(text) => Ok((ExprModel::Value(ValueModel::Str(text)), i + 1)),
            TokenModel::Identifier(name) => if mark_at(t, i + 1, Mark::LParen) {
                if mark_at(t, i + 2, Mark::RParen) {
                    Ok((ExprModel::FunctionCall { name, args: Seq::empty() }, i + 3))
                } else {
                    match read_args(t, i + 2) {
                        Err(error) => Err(error),
                        Ok((args, j)) => Ok((ExprModel::FunctionCall { name, args }, j)),
                    }
                }
            } else {
                Ok((ExprModel::Identifier(name), i + 1))
            },
            TokenModel::Mark(mark) => if mark == Mark::LParen {
                match read_or(t, i + 1) {
                    Err(error) => Err(error),
                    Ok((inner, j)) => if mark_at(t, j, Mark::RParen) {
                        Ok((inner, j + 1))
                    } else {
                        Err(PolicyError::ExpectedCloseParen)
                    },
                }
            } else {
                Err(PolicyError::UnexpectedToken)
            },
        }
    }
}

/// Arguments with commas between them, and the closing parenthesis.
pub open spec fn read_args(t: Seq<TokenModel>, i: int) -> Result<
    (Seq<ExprModel>, int),
    PolicyError,
>
    decreases t.len() - i, 6int,
{
    match read_or(t, i) {
        Err(error) => Err(error),
        Ok((first, j)) => if !(i < j <= t.len()) {
            Err(PolicyError::UnexpectedEnd)
        } else if mark_at(t, j, Mark::RParen) {
            Ok((seq![first], j + 1))
        } else if mark_at(t, j, Mark::Comma) {
            match read_args(t, j + 1) {
                Err(error) => Err(error),
                Ok((rest, k)) => Ok((seq![first] + rest, k)),
            }
        } else {
            Err(PolicyError::ExpectedComma)
        },
    }
}

/// The expression that a text spells.
pub open spec fn parsed(input: Seq<char>) -> Result<ExprModel, PolicyError> {
    match tokens_of(input) {
        Err(error) => Err(error),
        Ok(t) => match read_or(t, 0) {
            Err(error) => Err(error),
            Ok((expr, end)) => if end == t.len() {
                Ok(expr)
            } else {
                Err(PolicyError::TrailingTokens)
            },
        },
    }
}

proof fn lemma_operand_ahead(t: Seq<TokenModel>, i: int)
    requires
        0 <= i <= t.len(),
    ensures
        read_operand(t, i) matches Ok((_, j)) ==> i < j <= t.len(),
    decreases t.len() - i, 0int,
{
    if i < t.len() {
        if i + 2 <= t.len() {
            lemma_args_ahead(t, i + 2);
        }
        lemma_or_ahead(t, i + 1);
    }
}

proof fn lemma_compare_ahead(t: Seq<TokenModel>, i: int)
    requires
        0 <= i <= t.len(),
    ensures
        read_compare(t, i) matches Ok((_, j)) ==> i < j <= t.len(),
    decreases t.len() - i, 1int,
{
    lemma_operand_ahead(t, i);
    if let Ok((_, j)) = read_operand(t, i) {
        if j < t.len() {
            lemma_operand_ahead(t, j + 1);
        }
    }
}

proof fn lemma_and_rest_ahead(t: Seq<TokenModel>, left: ExprModel, i: int)
    requires
        0 <= i <= t.len(),
    ensures
        read_and_rest(t, left, i) matches Ok((_, j)) ==> i <= j <= t.len(),
    decreases t.len() - i, 2int,
{
    if mark_at(t, i, Mark::And) {
        lemma_compare_ahead(t, i + 1);
        if let Ok((right, j)) = read_compare(t, i + 1) {
            lemma_and_rest_ahead(t, ExprModel::And(Box::new(left), Box::new(right)), j);
        }
    }
}

proof fn lemma_and_ahead(t: Seq<TokenModel>, i: int)
    requires
        0 <= i <= t.len(),
    ensures
        read_and(t, i) matches Ok((_, j)) ==> i < j <= t.len(),
    decreases t.len() - i, 3int,
{
    lemma_compare_ahead(t, i);
    if let Ok((left, j)) = read_compare(t, i) {
        lemma_and_rest_ahead(t, left, j);
    }
}

proof fn lemma_or_rest_ahead(t: Seq<TokenModel>, left: ExprModel, i: int)
    requires
        0 <= i <= t.len(),
    ensures
        read_or_rest(t, left, i) matches Ok((_, j)) ==> i <= j <= t.len(),
    decreases t.len() - i, 4int,
{
    if mark_at(t, i, Mark::Or) {
        lemma_and_ahead(t, i + 1);
        if let Ok((right, j)) = read_and(t, i + 1) {
            lemma_or_rest_ahead(t, ExprModel::Or(Box::new(left), Box::new(right)), j);
        }
    }
}

/// What is read ends behind where it starts, and not behind the tokens.
pub proof fn lemma_or_ahead(t: Seq<TokenModel>, i: int)
    requires
        0 <= i <= t.len(),
    ensures
        read_or(t, i) matches Ok((_, j)) ==> i < j <= t.len(),
    decreases t.len() - i, 5int,
{
    lemma_and_ahead(t, i);
    if let Ok((left, j)) = read_and(t, i) {
        lemma_or_rest_ahead(t, left, j);
    }
}

proof fn lemma_args_ahead(t: Seq<TokenModel>, i: int)
    requires
        0 <= i <= t.len(),
    ensures
        read_args(t, i) matches Ok((_, j)) ==> i < j <= t.len(),
    decreases t.len() - i, 6int,
{
    lemma_or_ahead(t, i);
    if let Ok((_, j)) = read_or(t, i) {
        if j < t.len() {
            lemma_args_ahead(t, j + 1);
        }
    }
}

/// A reader of tokens.
struct Parser<'a> {
    tokens: &'a Vec<Token>,
    index: usize,
}

impl<'a> Parser<'a> {
    spec fn in_bounds(self) -> bool {
        self.index <= self.tokens@.len()
    }

    spec fn all(self) -> Seq<TokenModel> {
        self.tokens.deep_view()
    }

    /// Whether reading gave what the grammar gives.
    spec fn agrees(self, after: Self, r: Result<Expr, PolicyError>, read: Parsed) -> bool {
        &&& after.tokens == self.tokens
        &&& after.in_bounds()
        &&& match r {
            Ok(expr) => read == Ok::<(ExprModel, int), PolicyError>(
                (expr.model(), after.index as int),
            ) && self.index < after.index,
            Err(error) => read == Err::<(ExprModel, int), PolicyError>(error),
        }
    }

    /// Whether the mark is the next token.
    fn peeks(&self, mark: Mark) -> (r: bool)
        requires
            self.in_bounds(),
        ensures
            r == mark_at(self.all(), self.index as int, mark),
            r ==> self.index < usize::MAX,
    {
        if self.index >= self.tokens.len() {
            return false;
        }
        match &self.tokens[self.index] {
            Token::Mark(next) => *next == mark,
            _ => false,
        }
    }

    /// Passes the mark if it is the next token.
    fn try_consume(&mut self, mark: Mark) -> (r: bool)
        requires
            old(self).in_bounds(),
        ensures
            r == mark_at(old(self).all(), old(self).index as int, mark),
            final(self).tokens == old(self).tokens,
            final(self).index == old(self).index + if r {
                1int
            } else {
                0int
            },
            final(self).in_bounds(),
    {
        if self.peeks(mark) {
            self.index += 1;
            true
        } else {
            false
        }
    }

    /// The comparison that is the next token, if one is.
    fn peek_op(&self) -> (r: Option<CompareOp>)
        requires
            self.in_bounds(),
        ensures
            r == op_at(self.all(), self.index as int),
            r is Some ==> self.index < usize::MAX,
    {
        if self.index >= self.tokens.len() {
            return None;
        }
        match &self.tokens[self.index] {
            Token::Mark(Mark::Eq) => Some(CompareOp::Eq),
            Token::Mark(Mark::Ne) => Some(CompareOp::Ne),
            Token::Mark(Mark::Gt) => Some(CompareOp::Gt),
            Token::Mark(Mark::Ge) => Some(CompareOp::Ge),
            Token::Mark(Mark::Lt) => Some(CompareOp::Lt),
            Token::Mark(Mark::Le) => Some(CompareOp::Le),
            _ => None,
        }
    }

    fn parse_or(&mut self) -> (r: Result<Expr, PolicyError>)
        requires
            old(self).in_bounds(),
        ensures
            old(self).agrees(*final(self), r, read_or(old(self).all(), old(self).index as int)),
        decreases old(self).tokens@.len() - old(self).index, 5int,
    {
        let ghost t = self.all();
        let ghost start = *self;
        let mut expr = self.parse_and()?;
        while self.peeks(Mark::Or)
            invariant
                self.tokens == start.tokens,
                self.in_bounds(),
                t == self.all(),
                t.len() == self.tokens@.len(),
                start.index < self.index,
                start == *old(self),
                read_or(t, start.index as int) == read_or_rest(t, expr.model(), self.index as int),
            decreases self.tokens@.len() - self.index,
        {
            self.index += 1;
            let right = self.parse_and()?;
            expr = Expr::Or(Box::new(expr), Box::new(right));
        }
        Ok(expr)
    }

    fn parse_and(&mut self) -> (r: Result<Expr, PolicyError>)
        requires
            old(self).in_bounds(),
        ensures
            old(self).agrees(*final(self), r, read_and(old(self).all(), old(self).index as int)),
        decreases old(self).tokens@.len() - old(self).index, 3int,
    {
        let ghost t = self.all();
        let ghost start = *self;
        let mut expr = self.parse_compare()?;
        while self.peeks(Mark::And)
            invariant
                self.tokens == start.tokens,
                self.in_bounds(),
                t == self.all(),
                t.len() == self.tokens@.len(),
                start.index < self.index,
                start == *old(self),
                read_and(t, start.index as int) == read_and_rest(t, expr.model(), self.index as int),
            decreases self.tokens@.len() - self.index,
        {
            self.index += 1;
            let right = self.parse_compare()?;
            expr = Expr::And(Box::new(expr), Box::new(right));
        }
        Ok(expr)
    }

    fn parse_compare(&mut self) -> (r: Result<Expr, PolicyError>)
        requires
            old(self).in_bounds(),
        ensures
            old(self).agrees(
                *final(self),
                r,
                read_compare(old(self).all(), old(self).index as int),
            ),
        decreases old(self).tokens@.len() - old(self).index, 1int,
    {
        let left = self.parse_primary()?;
        match self.peek_op() {
            Some(op) => {
                self.index += 1;
                let right = self.parse_primary()?;
                Ok(Expr::Compare { left: Box::new(left), op, right: Box::new(right) })
            },
            None => Ok(left),
        }
    }

    fn parse_primary(&mut self) -> (r: Result<Expr, PolicyError>)
        requires
            old(self).in_bounds(),
        ensures
            old(self).agrees(
                *final(self),
                r,
                read_operand(old(self).all(), old(self).index as int),
            ),
        decreases old(self).tokens@.len() - old(self).index, 0int,
    {
        if self.index >= self.tokens.len() {
            return Err(PolicyError::UnexpectedEnd);
        }
        let tokens: &'a Vec<Token> = self.tokens;
        let token = &tokens[self.index];
        assert(self.all()[self.index as int] == token.deep_view());
        self.index += 1;
        match token {
            Token::Number(value) => Ok(Expr::Value(Value::Int(*value))),
            Token::Text(text) => Ok(Expr::Value(Value::Str(text.clone()))),
            Token::Identifier(name) => {
                if !self.try_consume(Mark::LParen) {
                    return Ok(Expr::Identifier(name.clone()));
                }
                if self.try_consume(Mark::RParen) {
                    let call = Expr::FunctionCall { name: name.clone(), args: Vec::new() };
                    assert(call.model()->FunctionCall_args =~= Seq::empty());
                    return Ok(call);
                }
                let args = self.parse_args()?;
                let call = Expr::FunctionCall { name: name.clone(), args };
                assert(call.model()->FunctionCall_args =~= models(args@));
                Ok(call)
            },
            Token::Mark(mark) => {
                if *mark != Mark::LParen {
                    return Err(PolicyError::UnexpectedToken);
                }
                let inner = self.parse_or()?;
                if self.try_consume(Mark::RParen) {
                    Ok(inner)
                } else {
                    Err(PolicyError::ExpectedCloseParen)
                }
            },
        }
    }

    /// The arguments of a call, from behind the opening parenthesis.
    fn parse_args(&mut self) -> (r: Result<Vec<Expr>, PolicyError>)
        requires
            old(self).in_bounds(),
        ensures
            final(self).tokens == old(self).tokens,
            final(self).in_bounds(),
            match r {
                Ok(args) => read_args(old(self).all(), old(self).index as int) == Ok::<
                    (Seq<ExprModel>, int),
                    PolicyError,
                >((models(args@), final(self).index as int)) && old(self).index < final(self).index,
                Err(error) => read_args(old(self).all(), old(self).index as int) == Err::<
                    (Seq<ExprModel>, int),
                    PolicyError,
                >(error),
            },
        decreases old(self).tokens@.len() - old(self).index, 6int,
    {
        let ghost t = self.all();
        let ghost start = *self;
        let ghost whole = read_args(t, start.index as int);
        let mut args: Vec<Expr> = Vec::new();
        proof {
            if let Ok((rest, _)) = whole {
                assert(models(args@) + rest =~= rest);
            }
        }
        loop
            invariant
                self.tokens == start.tokens,
                self.in_bounds(),
                t == self.all(),
                t.len() == self.tokens@.len(),
                start.index <= self.index,
                start == *old(self),
                whole == read_args(t, start.index as int),
                match read_args(t, self.index as int) {
                    Ok((rest, end)) => whole == Ok::<(Seq<ExprModel>, int), PolicyError>(
                        (models(args@) + rest, end),
                    ),
                    Err(error) => whole == Err::<(Seq<ExprModel>, int), PolicyError>(error),
                },
            decreases self.tokens@.len() - self.index,
        {
            let ghost before = models(args@);
            let arg = self.parse_or()?;
            args.push(arg);
            assert(models(args@) =~= before.push(arg.model()));
            if self.try_consume(Mark::RParen) {
                assert(before + seq![arg.model()] =~= models(args@));
                return Ok(args);
            }
            if !self.try_consume(Mark::Comma) {
                return Err(PolicyError::ExpectedComma);
            }
            proof {
                if let Ok((rest, _)) = read_args(t, self.index as int) {
                    assert(before + (seq![arg.model()] + rest) =~= models(args@) + rest);
                }
            }
        }
    }
}

/// The expression that the text spells.
pub fn parse_expression(input: &str) -> (r: Result<Expr, PolicyError>)
    ensures
        match r {
            Ok(expr) => parsed(input@) == Ok::<ExprModel, PolicyError>(expr.model()),
            Err(error) => parsed(input@) == Err::<ExprModel, PolicyError>(error),
        },
{
    let tokens = tokenize(input)?;
    let mut parser = Parser { tokens: &tokens, index: 0 };
    let expr = parser.parse_or()?;
    if parser.index != tokens.len() {
        return Err(PolicyError::TrailingTokens);
    }
    Ok(expr)
}

// ---------------------------------------------------------------------------------------------
// Values
// ---------------------------------------------------------------------------------------------

/// What the names of an expression stand for.
pub type Bindings = Map<Seq<char>, ValueModel>;

/// What evaluating gives.
pub type Evaluated = Result<ValueModel, PolicyError>;

/// Whether integers compare so.
pub open spec fn ints_compare(left: int, op: CompareOp, right: int) -> bool {
    match op {
        CompareOp::Eq => left == right,
        CompareOp::Ne => left != right,
        CompareOp::Gt => left > right,
        CompareOp::Ge => left >= right,
        CompareOp::Lt => left < right,
        CompareOp::Le => left <= right,
    }
}

/// Whether texts compare so.
pub open spec fn texts_compare(left: Seq<char>, op: CompareOp, right: Seq<char>) -> bool {
    match op {
        CompareOp::Eq => left == right,
        CompareOp::Ne => left != right,
        CompareOp::Gt => text_before(right, left),
        CompareOp::Ge => !text_before(left, right),
        CompareOp::Lt => text_before(left, right),
        CompareOp::Le => !text_before(right, left),
    }
}

/// A comparison of two values. A missing value equals another missing value and differs from every
/// value that is there.
pub open spec fn compared(left: ValueModel, op: CompareOp, right: ValueModel) -> Result<
    bool,
    PolicyError,
> {
    match (left, right) {
        (ValueModel::Int(left), ValueModel::Int(right)) => Ok(ints_compare(left, op, right)),
        (ValueModel::Str(left), ValueModel::Str(right)) => Ok(texts_compare(left, op, right)),
        (ValueModel::Bool(left), ValueModel::Bool(right)) => match op {
            CompareOp::Eq => Ok(left == right),
            CompareOp::Ne => Ok(left != right),
            _ => Err(PolicyError::UnsupportedBooleanComparison),
        },
        (ValueModel::Missing, ValueModel::Missing) => Ok(
            op == CompareOp::Eq || op == CompareOp::Ge || op == CompareOp::Le,
        ),
        (ValueModel::Missing, _) => Ok(op == CompareOp::Ne),
        (_, ValueModel::Missing) => Ok(op == CompareOp::Ne),
        _ => Err(PolicyError::UnsupportedComparison),
    }
}

/// The text of a value, to which patterns are held.
pub open spec fn value_text(value: ValueModel) -> Seq<char> {
    match value {
        ValueModel::Int(value) => int_text(value),
        ValueModel::Str(text) => text,
        ValueModel::Bool(value) => if value {
            "true"@
        } else {
            "false"@
        },
        ValueModel::Missing => Seq::empty(),
    }
}

/// The boolean that a value is.
pub open spec fn as_boolean(value: Evaluated) -> Result<bool, PolicyError> {
    match value {
        Ok(ValueModel::Bool(value)) => Ok(value),
        Ok(_) => Err(PolicyError::ExpectedBoolean),
        Err(error) => Err(error),
    }
}

/// A call: `match` tells whether the first match of the pattern is the whole text, `search` whether
/// there is a match.
pub open spec fn called(name: Seq<char>, values: Seq<ValueModel>) -> Evaluated {
    if values.len() == 2 && values[0] is Str && (name == "match"@ || name == "search"@) {
        let pattern = values[0]->Str_0;
        let text = value_text(values[1]);
        if !regex_compiles(pattern) {
            Err(PolicyError::InvalidPattern)
        } else if name == "match"@ {
            Ok(ValueModel::Bool(regex_found(pattern, text) == Some(text)))
        } else {
            Ok(ValueModel::Bool(regex_found(pattern, text) is Some))
        }
    } else {
        Err(PolicyError::UnsupportedCall)
    }
}

/// The value of an expression. The second operand of `and` and of `or` counts only where the first
/// leaves the answer open.
pub open spec fn evaluated(expr: ExprModel, names: Bindings) -> Evaluated
    decreases expr,
{
    match expr {
        ExprModel::Value(value) => Ok(value),
        ExprModel::Identifier(name) => if names.contains_key(name) {
            Ok(names[name])
        } else {
            Ok(ValueModel::Missing)
        },
        ExprModel::FunctionCall { name, args } => match all_evaluated(args, names) {
            Ok(values) => called(name, values),
            Err(error) => Err(error),
        },
        ExprModel::Compare { left, op, right } => match evaluated(*left, names) {
            Err(error) => Err(error),
            Ok(left) => match evaluated(*right, names) {
                Err(error) => Err(error),
                Ok(right) => match compared(left, op, right) {
                    Ok(answer) => Ok(ValueModel::Bool(answer)),
                    Err(error) => Err(error),
                },
            },
        },
        ExprModel::And(left, right) => match as_boolean(evaluated(*left, names)) {
            Err(error) => Err(error),
            Ok(false) => Ok(ValueModel::Bool(false)),
            Ok(true) => match as_boolean(evaluated(*right, names)) {
                Err(error) => Err(error),
                Ok(answer) => Ok(ValueModel::Bool(answer)),
            },
        },
        ExprModel::Or(left, right) => match as_boolean(evaluated(*left, names)) {
            Err(error) => Err(error),
            Ok(true) => Ok(ValueModel::Bool(true)),
            Ok(false) => match as_boolean(evaluated(*right, names)) {
                Err(error) => Err(error),
                Ok(answer) => Ok(ValueModel::Bool(answer)),
            },
        },
    }
}

/// The values of a list of expressions, or the first error.
pub open spec fn all_evaluated(list: Seq<ExprModel>, names: Bindings) -> Result<
    Seq<ValueModel>,
    PolicyError,
>
    decreases list,
{
    if list.len() == 0 {
        Ok(Seq::empty())
    } else {
        match all_evaluated(list.drop_last(), names) {
            Err(error) => Err(error),
            Ok(values) => match evaluated(list.last(), names) {
                Err(error) => Err(error),
                Ok(value) => Ok(values.push(value)),
            },
        }
    }
}

/// The answer of an expression, given as text.
pub open spec fn answer(input: Seq<char>, names: Bindings) -> Result<bool, PolicyError> {
    match parsed(input) {
        Ok(expr) => as_boolean(evaluated(expr, names)),
        Err(error) => Err(error),
    }
}

impl Value {
    fn as_bool(&self) -> (r: Result<bool, PolicyError>)
        ensures
            r == as_boolean(Ok(self.deep_view())),
    {
        match self {
            Value::Bool(value) => Ok(*value),
            _ => Err(PolicyError::ExpectedBoolean),
        }
    }

    fn as_string(&self) -> (r: String)
        ensures
            r@ == value_text(self.deep_view()),
    {
        match self {
            Value::Int(value) => int_to_text(*value),
            Value::Str(value) => value.clone(),
            Value::Bool(value) => if *value {
                "true".to_owned()
            } else {
                "false".to_owned()
            },
            Value::Missing => String::new(),
        }
    }
}

impl Clone for Value {
    fn clone(&self) -> (r: Self)
        ensures
            r.deep_view() == self.deep_view(),
    {
        match self {
            Value::Int(value) => Value::Int(*value),
            Value::Str(value) => Value::Str(value.clone()),
            Value::Bool(value) => Value::Bool(*value),
            Value::Missing => Value::Missing,
        }
    }
}

fn compare_values(left: &Value, op: CompareOp, right: &Value) -> (r: Result<bool, PolicyError>)
    ensures
        r == compared(left.deep_view(), op, right.deep_view()),
{
    match (left, right) {
        (Value::Int(left), Value::Int(right)) => Ok(
            match op {
                CompareOp::Eq => *left == *right,
                CompareOp::Ne => *left != *right,
                CompareOp::Gt => *left > *right,
                CompareOp::Ge => *left >= *right,
                CompareOp::Lt => *left < *right,
                CompareOp::Le => *left <= *right,
            },
        ),
        (Value::Str(left), Value::Str(right)) => Ok(
            match op {
                CompareOp::Eq => same_text(left.as_str(), right.as_str()),
                CompareOp::Ne => !same_text(left.as_str(), right.as_str()),
                CompareOp::Gt => is_before(right.as_str(), left.as_str()),
                CompareOp::Ge => !is_before(left.as_str(), right.as_str()),
                CompareOp::Lt => is_before(left.as_str(), right.as_str()),
                CompareOp::Le => !is_before(right.as_str(), left.as_str()),
            },
        ),
        (Value::Bool(left), Value::Bool(right)) => match op {
            CompareOp::Eq => Ok(*left == *right),
            CompareOp::Ne => Ok(*left != *right),
            _ => Err(PolicyError::UnsupportedBooleanComparison),
        },
        (Value::Missing, Value::Missing) => Ok(
            op == CompareOp::Eq || op == CompareOp::Ge || op == CompareOp::Le,
        ),
        (Value::Missing, _) => Ok(op == CompareOp::Ne),
        (_, Value::Missing) => Ok(op == CompareOp::Ne),
        _ => Err(PolicyError::UnsupportedComparison),
    }
}

/// Whether what a pattern found is the whole text.
pub fn is_whole_match(found: &Option<String>, text: &str) -> (r: bool)
    ensures
        r == (found.deep_view() == Some(text@)),
{
    match found {
        Some(found) => same_text(found.as_str(), text),
        None => false,
    }
}

/// The value of a call.
fn call_function(name: &str, values: &Vec<Value>) -> (r: Result<Value, PolicyError>)
    ensures
        match r {
            Ok(value) => called(name@, values.deep_view()) == Ok::<ValueModel, PolicyError>(
                value.deep_view(),
            ),
            Err(error) => called(name@, values.deep_view()) == Err::<ValueModel, PolicyError>(
                error,
            ),
        },
{
    let ghost models = values.deep_view();
    if values.len() != 2 {
        return Err(PolicyError::UnsupportedCall);
    }
    assert(models[0] == values@[0].deep_view() && models[1] == values@[1].deep_view());
    let pattern = match &values[0] {
        Value::Str(pattern) => pattern,
        _ => {
            return Err(PolicyError::UnsupportedCall);
        },
    };
    let text = values[1].as_string();
    if same_text(name, "match") {
        let matched = match regex_is_match(pattern.as_str(), text.as_str()) {
            Ok(matched) => matched,
            Err(_) => {
                return Err(PolicyError::InvalidPattern);
            },
        };
        let found = match regex_find(pattern.as_str(), text.as_str()) {
            Ok(found) => found,
            Err(_) => {
                return Err(PolicyError::InvalidPattern);
            },
        };
        Ok(Value::Bool(matched && is_whole_match(&found, text.as_str())))
    } else if same_text(name, "search") {
        match regex_is_match(pattern.as_str(), text.as_str()) {
            Ok(matched) => Ok(Value::Bool(matched)),
            Err(_) => Err(PolicyError::InvalidPattern),
        }
    } else {
        Err(PolicyError::UnsupportedCall)
    }
}

/// The value of the expression, with the context's values for its names.
pub fn eval_ast(expr: &Expr, context: &TextMap<Value>) -> (r: Result<Value, PolicyError>)
    ensures
        match r {
            Ok(value) => evaluated(expr.model(), context.deep_view()) == Ok::<
                ValueModel,
                PolicyError,
            >(value.deep_view()),
            Err(error) => evaluated(expr.model(), context.deep_view()) == Err::<
                ValueModel,
                PolicyError,
            >(error),
        },
    decreases expr,
{
    let ghost names = context.deep_view();
    match expr {
        Expr::Value(value) => Ok(value.clone()),
        Expr::Identifier(name) => match context.get(name.as_str()) {
            Some(value) => Ok(value.clone()),
            None => Ok(Value::Missing),
        },
        Expr::FunctionCall { name, args } => {
            let mut values: Vec<Value> = Vec::new();
            let ghost list = expr.model()->FunctionCall_args;
            let mut i: usize = 0;
            assert(values.deep_view() =~= Seq::empty());
            while i < args.len()
                invariant
                    i <= args@.len(),
                    names == context.deep_view(),
                    expr == (Expr::FunctionCall { name: *name, args: *args }),
                    list == models(args@),
                    list == expr.model()->FunctionCall_args,
                    all_evaluated(list.take(i as int), names) == Ok::<Seq<ValueModel>, PolicyError>(
                        values.deep_view(),
                    ),
                decreases args@.len() - i,
            {
                let ghost before = values.deep_view();
                proof {
                    assert(decreases_to!(*expr => expr->FunctionCall_args@[i as int]));
                    assert(list.take(i + 1).drop_last() =~= list.take(i as int));
                    assert(list.take(i + 1).last() == args@[i as int].model());
                }
                let result = eval_ast(&args[i], context);
                match result {
                    Ok(value) => {
                        values.push(value);
                        assert(values.deep_view() =~= before.push(value.deep_view()));
                    },
                    Err(error) => {
                        proof {
                            lemma_first_error(list, names, i as int, error);
                        }
                        return Err(error);
                    },
                }
                i += 1;
            }
            assert(list.take(i as int) =~= list);
            call_function(name.as_str(), &values)
        },
        Expr::Compare { left, op, right } => {
            let left_value = eval_ast(left, context)?;
            let right_value = eval_ast(right, context)?;
            Ok(Value::Bool(compare_values(&left_value, *op, &right_value)?))
        },
        Expr::And(left, right) => {
            if !eval_ast(left, context)?.as_bool()? {
                return Ok(Value::Bool(false));
            }
            Ok(Value::Bool(eval_ast(right, context)?.as_bool()?))
        },
        Expr::Or(left, right) => {
            if eval_ast(left, context)?.as_bool()? {
                return Ok(Value::Bool(true));
            }
            Ok(Value::Bool(eval_ast(right, context)?.as_bool()?))
        },
    }
}

/// An error in one of the first expressions is the error of the list.
proof fn lemma_first_error(list: Seq<ExprModel>, names: Bindings, i: int, error: PolicyError)
    requires
        0 <= i < list.len(),
        all_evaluated(list.take(i), names) is Ok,
        evaluated(list[i], names) == Err::<ValueModel, PolicyError>(error),
    ensures
        all_evaluated(list, names) == Err::<Seq<ValueModel>, PolicyError>(error),
    decreases list.len(),
{
    if i == list.len() - 1 {
        assert(list.drop_last() =~= list.take(i));
    } else {
        assert(list.drop_last().take(i) =~= list.take(i));
        lemma_first_error(list.drop_last(), names, i, error);
    }
}

/// The answer of the expression that the text spells, with the context's values for its names.
pub fn eval_expression(input: &str, context: &TextMap<Value>) -> (r: Result<bool, PolicyError>)
    ensures
        r == answer(input@, context.deep_view()),
{
    let expr = parse_expression(input)?;
    eval_ast(&expr, context)?.as_bool()
}

// ---------------------------------------------------------------------------------------------
// Laws
// ---------------------------------------------------------------------------------------------

/// Of two integers, and of two texts, exactly one of less, equal and greater holds, and the other
/// comparisons are what those make them.
pub proof fn comparisons_agree(left: ValueModel, right: ValueModel)
    requires
        (left is Int && right is Int) || (left is Str && right is Str),
    ensures
        ({
            let lt = compared(left, CompareOp::Lt, right);
            let eq = compared(left, CompareOp::Eq, right);
            let gt = compared(left, CompareOp::Gt, right);
            &&& lt is Ok && eq is Ok && gt is Ok
            &&& eq->Ok_0 <==> left == right
            &&& lt->Ok_0 ==> !eq->Ok_0 && !gt->Ok_0
            &&& gt->Ok_0 ==> !eq->Ok_0
            &&& lt->Ok_0 || eq->Ok_0 || gt->Ok_0
            &&& compared(left, CompareOp::Ne, right) == Ok::<bool, PolicyError>(!eq->Ok_0)
            &&& compared(left, CompareOp::Le, right) == Ok::<bool, PolicyError>(!gt->Ok_0)
            &&& compared(left, CompareOp::Ge, right) == Ok::<bool, PolicyError>(!lt->Ok_0)
            &&& compared(right, CompareOp::Gt, left) == lt
        }),
{
    if left is Str {
        text_order_is_total(left->Str_0, right->Str_0);
    }
}

/// The comparison that asks the same with its operands exchanged.
pub open spec fn turned_round(op: CompareOp) -> CompareOp {
    match op {
        CompareOp::Eq => CompareOp::Eq,
        CompareOp::Ne => CompareOp::Ne,
        CompareOp::Gt => CompareOp::Lt,
        CompareOp::Ge => CompareOp::Le,
        CompareOp::Lt => CompareOp::Gt,
        CompareOp::Le => CompareOp::Ge,
    }
}

/// Whatever the values, exchanging them and turning the comparison round changes neither the answer
/// nor the error.
pub proof fn comparisons_turn_round(left: ValueModel, op: CompareOp, right: ValueModel)
    ensures
        compared(right, turned_round(op), left) == compared(left, op, right),
{
}

/// Whatever the values, they differ exactly if they are not equal: the two comparisons have opposite
/// answers, or the same error.
pub proof fn differing_is_not_being_equal(left: ValueModel, right: ValueModel)
    ensures
        compared(left, CompareOp::Ne, right) == (match compared(left, CompareOp::Eq, right) {
            Ok(equal) => Ok::<bool, PolicyError>(!equal),
            Err(error) => Err(error),
        }),
{
}

/// A name that stands for nothing, compared with a value that is there, is different from it and
/// nothing else: an expression can ask for what the operating system does not tell.
pub proof fn missing_names_only_differ(
    names: Bindings,
    name: Seq<char>,
    op: CompareOp,
    value: ValueModel,
)
    requires
        !names.contains_key(name),
        !(value is Missing),
    ensures
        evaluated(
            ExprModel::Compare {
                left: Box::new(ExprModel::Identifier(name)),
                op,
                right: Box::new(ExprModel::Value(value)),
            },
            names,
        ) == Evaluated::Ok(ValueModel::Bool(op == CompareOp::Ne)),
        evaluated(
            ExprModel::Compare {
                left: Box::new(ExprModel::Value(value)),
                op,
                right: Box::new(ExprModel::Identifier(name)),
            },
            names,
        ) == Evaluated::Ok(ValueModel::Bool(op == CompareOp::Ne)),
{
    reveal_with_fuel(evaluated, 2);
}

/// Where the first operand decides, the second does not count, not even if it cannot be evaluated.
pub proof fn first_operand_can_decide(left: ExprModel, right: ExprModel, names: Bindings)
    ensures
        evaluated(left, names) == Evaluated::Ok(ValueModel::Bool(false)) ==> evaluated(
            ExprModel::And(Box::new(left), Box::new(right)),
            names,
        ) == Evaluated::Ok(ValueModel::Bool(false)),
        evaluated(left, names) == Evaluated::Ok(ValueModel::Bool(true)) ==> evaluated(
            ExprModel::Or(Box::new(left), Box::new(right)),
            names,
        ) == Evaluated::Ok(ValueModel::Bool(true)),
{
}

/// The value of an expression is a boolean, and this one.
pub open spec fn says(expr: ExprModel, names: Bindings, yes: bool) -> bool {
    evaluated(expr, names) == Evaluated::Ok(ValueModel::Bool(yes))
}

/// `and` holds exactly if both operands hold, and fails exactly if the first fails, or holds and the
/// second fails. `or` fails exactly if both operands fail, and holds exactly if the first holds, or
/// fails and the second holds.
pub proof fn connectives_mean_what_they_say(left: ExprModel, right: ExprModel, names: Bindings)
    ensures
        ({
            let both = ExprModel::And(Box::new(left), Box::new(right));
            let either = ExprModel::Or(Box::new(left), Box::new(right));
            &&& says(both, names, true) <==> says(left, names, true) && says(right, names, true)
            &&& says(both, names, false) <==> says(left, names, false) || (says(left, names, true)
                && says(right, names, false))
            &&& says(either, names, false) <==> says(left, names, false) && says(
                right,
                names,
                false,
            )
            &&& says(either, names, true) <==> says(left, names, true) || (says(left, names, false)
                && says(right, names, true))
            &&& evaluated(both, names) matches Ok(value) ==> value is Bool
            &&& evaluated(either, names) matches Ok(value) ==> value is Bool
        }),
{
}

/// Numbers compare as numbers: each comparison of two expressions with the values `a` and `b` is that
/// of `a` and `b`.
pub proof fn numbers_compare_as_numbers(
    left: ExprModel,
    right: ExprModel,
    names: Bindings,
    a: int,
    b: int,
)
    requires
        evaluated(left, names) == Evaluated::Ok(ValueModel::Int(a)),
        evaluated(right, names) == Evaluated::Ok(ValueModel::Int(b)),
    ensures
        says(comparison(left, CompareOp::Eq, right), names, a == b),
        says(comparison(left, CompareOp::Ne, right), names, a != b),
        says(comparison(left, CompareOp::Gt, right), names, a > b),
        says(comparison(left, CompareOp::Ge, right), names, a >= b),
        says(comparison(left, CompareOp::Lt, right), names, a < b),
        says(comparison(left, CompareOp::Le, right), names, a <= b),
{
}

/// A comparison of two expressions.
pub open spec fn comparison(left: ExprModel, op: CompareOp, right: ExprModel) -> ExprModel {
    ExprModel::Compare { left: Box::new(left), op, right: Box::new(right) }
}

/// Texts are equal if they are the same, and greater if they come later: a text is less than another
/// if it has the smaller character where they first differ, or is where the other goes on from it.
pub proof fn texts_compare_as_texts(
    left: ExprModel,
    right: ExprModel,
    names: Bindings,
    a: Seq<char>,
    b: Seq<char>,
    n: int,
)
    requires
        evaluated(left, names) == Evaluated::Ok(ValueModel::Str(a)),
        evaluated(right, names) == Evaluated::Ok(ValueModel::Str(b)),
        0 <= n <= a.len(),
        n < b.len(),
        a.take(n) == b.take(n),
        n < a.len() ==> a[n] < b[n],
    ensures
        says(comparison(left, CompareOp::Lt, right), names, true),
        says(comparison(left, CompareOp::Le, right), names, true),
        says(comparison(left, CompareOp::Ne, right), names, true),
        says(comparison(left, CompareOp::Eq, right), names, false),
        says(comparison(left, CompareOp::Gt, right), names, false),
        says(comparison(left, CompareOp::Ge, right), names, false),
        says(comparison(right, CompareOp::Gt, left), names, true),
        says(comparison(right, CompareOp::Lt, left), names, false),
        says(comparison(left, CompareOp::Eq, left), names, true),
        says(comparison(left, CompareOp::Le, left), names, true),
        says(comparison(left, CompareOp::Ge, left), names, true),
        says(comparison(left, CompareOp::Lt, left), names, false),
        says(comparison(left, CompareOp::Gt, left), names, false),
{
    lemma_text_before(a, b, n);
    text_order_is_total(a, b);
    text_order_is_total(a, a);
    if a == b {
        assert(a.len() == b.len());
        assert(a[n] == b[n]);
    }
}

/// Values of different kinds cannot be compared, except with a missing value, which only differs from
/// what is there; booleans can be equal or different but are in no order.
pub proof fn unlike_values_do_not_compare(left: ValueModel, op: CompareOp, right: ValueModel)
    ensures
        compared(left, op, right) is Err <==> {
            ||| left is Bool && right is Bool && op != CompareOp::Eq && op != CompareOp::Ne
            ||| !(left is Missing) && !(right is Missing) && !(left is Int && right is Int) && !(
            left is Str && right is Str) && !(left is Bool && right is Bool)
        },
        left is Missing && !(right is Missing) ==> compared(left, op, right) == Ok::<
            bool,
            PolicyError,
        >(op == CompareOp::Ne),
        left is Missing && right is Missing ==> compared(left, CompareOp::Eq, right) == Ok::<
            bool,
            PolicyError,
        >(true),
        left matches ValueModel::Bool(a) ==> right matches ValueModel::Bool(b) ==> compared(
            left,
            CompareOp::Eq,
            right,
        ) == Ok::<bool, PolicyError>(a == b),
{
}

/// `search` holds exactly if the pattern is found somewhere in the text of the value, and `match`
/// exactly if what is found is that whole text. A pattern that cannot be read is an error.
pub proof fn patterns_are_looked_for(
    first: ExprModel,
    second: ExprModel,
    names: Bindings,
    pattern: Seq<char>,
    value: ValueModel,
)
    requires
        evaluated(first, names) == Evaluated::Ok(ValueModel::Str(pattern)),
        evaluated(second, names) == Evaluated::Ok(value),
    ensures
        ({
            let text = match value {
                ValueModel::Str(text) => text,
                ValueModel::Int(number) => int_text(number),
                ValueModel::Bool(true) => "true"@,
                ValueModel::Bool(false) => "false"@,
                ValueModel::Missing => Seq::empty(),
            };
            let args = seq![first, second];
            let search = ExprModel::FunctionCall { name: "search"@, args };
            let whole = ExprModel::FunctionCall { name: "match"@, args };
            &&& regex_compiles(pattern) ==> says(search, names, regex_found(pattern, text) is Some)
            &&& regex_compiles(pattern) ==> says(
                whole,
                names,
                regex_found(pattern, text) == Some(text),
            )
            &&& !regex_compiles(pattern) ==> evaluated(search, names) == Evaluated::Err(
                PolicyError::InvalidPattern,
            ) && evaluated(whole, names) == Evaluated::Err(PolicyError::InvalidPattern)
        }),
{
    reveal_strlit("search");
    reveal_strlit("match");
    assert("search"@.len() != "match"@.len());
    let args = seq![first, second];
    let values = seq![ValueModel::Str(pattern), value];
    let none = Seq::<ExprModel>::empty();
    assert(args.drop_last() =~= seq![first]);
    assert(seq![first].drop_last() =~= none);
    assert(all_evaluated(none, names) == Ok::<Seq<ValueModel>, PolicyError>(Seq::empty()));
    assert(all_evaluated(seq![first], names) == Ok::<Seq<ValueModel>, PolicyError>(
        Seq::empty().push(values[0]),
    ));
    assert(all_evaluated(args, names) == Ok::<Seq<ValueModel>, PolicyError>(
        Seq::empty().push(values[0]).push(values[1]),
    ));
    assert(Seq::<ValueModel>::empty().push(values[0]).push(values[1]) =~= values);
    let search = ExprModel::FunctionCall { name: "search"@, args };
    let whole = ExprModel::FunctionCall { name: "match"@, args };
    assert(evaluated(search, names) == called("search"@, values));
    assert(evaluated(whole, names) == called("match"@, values));
}

/// A text answers yes or no exactly if it can be read as an expression whose value is that boolean.
pub proof fn answers_are_values(input: Seq<char>, names: Bindings, yes: bool)
    ensures
        answer(input, names) == Ok::<bool, PolicyError>(yes) <==> (parsed(input) matches Ok(expr)
            && says(expr, names, yes)),
{
}

/// What is told of a value of `Value`: its variant, and each field under its own name.
pub proof fn value_is_told_by_field(value: Value)
    ensures
        match (value, value.deep_view()) {
            (Value::Int(held), ValueModel::Int(told)) => told == held,
            (Value::Str(held), ValueModel::Str(told)) => told == held@,
            (Value::Bool(held), ValueModel::Bool(told)) => told == held,
            (Value::Missing, ValueModel::Missing) => true,
            _ => false,
        },
{
}

} // verus!
