//! The grammar of policy expressions as a set of rules, and that reading an expression is following
//! those rules.

use vstd::prelude::*;

use crate::numeral::{int_text, numerals_read_back};
use crate::policy::{
    blank, lemma_or_ahead, lemma_token_at, mark_at, number_char, op_at, parsed, quoted, read_and,
    read_and_rest, read_args, read_compare, read_operand, read_or, read_or_rest, run_end, token_at,
    tokens_from, tokens_of, word_char, word_token, CompareOp, ExprModel, Mark, Parsed, PolicyError,
    TokenModel, ValueModel,
};

verus! {

/// Whether the tokens from `i` up to `j` spell the operand `e`: a number, a text, a name, a call,
/// or any expression in parentheses.
pub open spec fn spells_operand(e: ExprModel, t: Seq<TokenModel>, i: int, j: int) -> bool
    decreases j - i, 0int,
{
    &&& 0 <= i < j <= t.len()
    &&& match t[i] {
        TokenModel::Number(value) => j == i + 1 && e == ExprModel::Value(ValueModel::Int(value)),
        TokenModel::Text(text) => j == i + 1 && e == ExprModel::Value(ValueModel::Str(text)),
        TokenModel::Identifier(name) => {
            ||| j == i + 1 && e == ExprModel::Identifier(name)
            ||| j == i + 3 && mark_at(t, i + 1, Mark::LParen) && mark_at(t, i + 2, Mark::RParen)
                && e == (ExprModel::FunctionCall { name, args: Seq::empty() })
            ||| j > i + 3 && mark_at(t, i + 1, Mark::LParen) && mark_at(t, j - 1, Mark::RParen) && (
            e matches ExprModel::FunctionCall { name: called, args } && called == name
                && spells_args(args, t, i + 2, j - 1))
        },
        TokenModel::Mark(mark) => mark == Mark::LParen && j > i + 2 && mark_at(
            t,
            j - 1,
            Mark::RParen,
        ) && spells_or(e, t, i + 1, j - 1),
    }
}

/// Whether the tokens spell an operand, or two with a comparison between them.
pub open spec fn spells_compare(e: ExprModel, t: Seq<TokenModel>, i: int, j: int) -> bool
    decreases j - i, 1int,
{
    ||| spells_operand(e, t, i, j)
    ||| e matches ExprModel::Compare { left, op, right } && exists|k: int|
        i < k < j - 1 && #[trigger] op_at(t, k) == Some(op) && spells_operand(*left, t, i, k)
            && spells_operand(*right, t, k + 1, j)
}

/// Whether the tokens spell a comparison, or a conjunction and a comparison with `and` between them.
pub open spec fn spells_and(e: ExprModel, t: Seq<TokenModel>, i: int, j: int) -> bool
    decreases j - i, 2int,
{
    ||| spells_compare(e, t, i, j)
    ||| e matches ExprModel::And(left, right) && exists|k: int|
        i < k < j - 1 && #[trigger] mark_at(t, k, Mark::And) && spells_and(*left, t, i, k)
            && spells_compare(*right, t, k + 1, j)
}

/// Whether the tokens spell a conjunction, or a disjunction and a conjunction with `or` between
/// them.
pub open spec fn spells_or(e: ExprModel, t: Seq<TokenModel>, i: int, j: int) -> bool
    decreases j - i, 3int,
{
    ||| spells_and(e, t, i, j)
    ||| e matches ExprModel::Or(left, right) && exists|k: int|
        i < k < j - 1 && #[trigger] mark_at(t, k, Mark::Or) && spells_or(*left, t, i, k)
            && spells_and(*right, t, k + 1, j)
}

/// Whether the tokens spell one or more expressions with commas between them.
pub open spec fn spells_args(args: Seq<ExprModel>, t: Seq<TokenModel>, i: int, j: int) -> bool
    decreases j - i, 4int,
{
    ||| args.len() == 1 && spells_or(args[0], t, i, j)
    ||| args.len() > 1 && exists|k: int|
        i < k < j - 1 && #[trigger] mark_at(t, k, Mark::Comma) && spells_or(args[0], t, i, k)
            && spells_args(args.drop_first(), t, k + 1, j)
}

/// Whether the text spells the expression.
pub open spec fn spells(e: ExprModel, input: Seq<char>) -> bool {
    tokens_of(input) matches Ok(t) && spells_or(e, t, 0, t.len() as int)
}

// What is read follows the rules.

proof fn lemma_operand_sound(t: Seq<TokenModel>, i: int)
    requires
        0 <= i <= t.len(),
    ensures
        read_operand(t, i) matches Ok((e, j)) ==> spells_operand(e, t, i, j),
    decreases t.len() - i, 0int,
{
    if i < t.len() {
        lemma_or_sound(t, i + 1);
        lemma_or_ahead(t, i + 1);
        if i + 2 <= t.len() {
            lemma_args_sound(t, i + 2);
        }
    }
}

proof fn lemma_compare_sound(t: Seq<TokenModel>, i: int)
    requires
        0 <= i <= t.len(),
    ensures
        read_compare(t, i) matches Ok((e, j)) ==> spells_compare(e, t, i, j),
    decreases t.len() - i, 1int,
{
    lemma_operand_sound(t, i);
    if let Ok((left, j)) = read_operand(t, i) {
        if j < t.len() && op_at(t, j) is Some {
            lemma_operand_sound(t, j + 1);
        }
    }
}

proof fn lemma_and_rest_sound(t: Seq<TokenModel>, start: int, left: ExprModel, i: int)
    requires
        0 <= start < i <= t.len(),
        spells_and(left, t, start, i),
    ensures
        read_and_rest(t, left, i) matches Ok((e, j)) ==> spells_and(e, t, start, j),
    decreases t.len() - i, 2int,
{
    if mark_at(t, i, Mark::And) {
        lemma_compare_sound(t, i + 1);
        if let Ok((right, j)) = read_compare(t, i + 1) {
            if i < j <= t.len() {
                let both = ExprModel::And(Box::new(left), Box::new(right));
                assert(spells_and(both, t, start, j));
                lemma_and_rest_sound(t, start, both, j);
            }
        }
    }
}

proof fn lemma_and_starts(e: ExprModel, t: Seq<TokenModel>, i: int, j: int)
    requires
        spells_and(e, t, i, j),
    ensures
        0 <= i < j <= t.len(),
    decreases j - i,
{
    if !spells_compare(e, t, i, j) {
        let k = choose|k: int|
            i < k < j - 1 && #[trigger] mark_at(t, k, Mark::And) && spells_and(
                *e->And_0,
                t,
                i,
                k,
            ) && spells_compare(*e->And_1, t, k + 1, j);
        lemma_and_starts(*e->And_0, t, i, k);
    }
}

proof fn lemma_or_starts(e: ExprModel, t: Seq<TokenModel>, i: int, j: int)
    requires
        spells_or(e, t, i, j),
    ensures
        0 <= i < j <= t.len(),
    decreases j - i,
{
    if spells_and(e, t, i, j) {
        lemma_and_starts(e, t, i, j);
    } else {
        let k = choose|k: int|
            i < k < j - 1 && #[trigger] mark_at(t, k, Mark::Or) && spells_or(*e->Or_0, t, i, k)
                && spells_and(*e->Or_1, t, k + 1, j);
        lemma_or_starts(*e->Or_0, t, i, k);
        lemma_and_starts(*e->Or_1, t, k + 1, j);
    }
}

proof fn lemma_and_sound(t: Seq<TokenModel>, i: int)
    requires
        0 <= i <= t.len(),
    ensures
        read_and(t, i) matches Ok((e, j)) ==> spells_and(e, t, i, j),
    decreases t.len() - i, 3int,
{
    lemma_compare_sound(t, i);
    if let Ok((left, j)) = read_compare(t, i) {
        if i < j <= t.len() {
            lemma_and_rest_sound(t, i, left, j);
        }
    }
}

proof fn lemma_or_rest_sound(t: Seq<TokenModel>, start: int, left: ExprModel, i: int)
    requires
        0 <= start < i <= t.len(),
        spells_or(left, t, start, i),
    ensures
        read_or_rest(t, left, i) matches Ok((e, j)) ==> spells_or(e, t, start, j),
    decreases t.len() - i, 4int,
{
    if mark_at(t, i, Mark::Or) {
        lemma_and_sound(t, i + 1);
        if let Ok((right, j)) = read_and(t, i + 1) {
            if i < j <= t.len() {
                lemma_and_starts(right, t, i + 1, j);
                let both = ExprModel::Or(Box::new(left), Box::new(right));
                assert(spells_or(both, t, start, j));
                lemma_or_rest_sound(t, start, both, j);
            }
        }
    }
}

proof fn lemma_or_sound(t: Seq<TokenModel>, i: int)
    requires
        0 <= i <= t.len(),
    ensures
        read_or(t, i) matches Ok((e, j)) ==> spells_or(e, t, i, j),
    decreases t.len() - i, 5int,
{
    lemma_and_sound(t, i);
    if let Ok((left, j)) = read_and(t, i) {
        if i < j <= t.len() {
            lemma_or_rest_sound(t, i, left, j);
        }
    }
}

proof fn lemma_args_sound(t: Seq<TokenModel>, i: int)
    requires
        0 <= i <= t.len(),
    ensures
        read_args(t, i) matches Ok((args, j)) ==> i < j - 1 < t.len() && mark_at(
            t,
            j - 1,
            Mark::RParen,
        ) && spells_args(args, t, i, j - 1),
    decreases t.len() - i, 6int,
{
    lemma_or_sound(t, i);
    if let Ok((first, j)) = read_or(t, i) {
        if i < j <= t.len() && mark_at(t, j, Mark::Comma) {
            lemma_args_sound(t, j + 1);
            if let Ok((rest, k)) = read_args(t, j + 1) {
                let args = seq![first] + rest;
                assert(args.drop_first() =~= rest);
                assert(args.len() > 1);
            }
        }
    }
}

// What follows the rules is read.

/// No call opens at `j`.
spec fn ends_operand(t: Seq<TokenModel>, j: int) -> bool {
    !mark_at(t, j, Mark::LParen)
}

/// No comparison stands at `j` either.
spec fn ends_compare(t: Seq<TokenModel>, j: int) -> bool {
    ends_operand(t, j) && op_at(t, j) is None
}

/// No `and` stands at `j` either.
spec fn ends_and(t: Seq<TokenModel>, j: int) -> bool {
    ends_compare(t, j) && !mark_at(t, j, Mark::And)
}

/// No `or` stands at `j` either.
spec fn ends_or(t: Seq<TokenModel>, j: int) -> bool {
    ends_and(t, j) && !mark_at(t, j, Mark::Or)
}

proof fn lemma_operand_complete(e: ExprModel, t: Seq<TokenModel>, i: int, j: int)
    requires
        spells_operand(e, t, i, j),
        ends_operand(t, j),
    ensures
        read_operand(t, i) == Parsed::Ok((e, j)),
    decreases j - i, 0int,
{
    match t[i] {
        TokenModel::Identifier(name) => {
            if j > i + 3 {
                lemma_args_complete(e->FunctionCall_args, t, i + 2, j - 1);
                lemma_args_start(e->FunctionCall_args, t, i + 2, j - 1);
                assert(e == ExprModel::FunctionCall { name, args: e->FunctionCall_args });
            }
        },
        TokenModel::Mark(mark) => {
            lemma_or_complete(e, t, i + 1, j - 1);
        },
        _ => {},
    }
}

proof fn lemma_compare_complete(e: ExprModel, t: Seq<TokenModel>, i: int, j: int)
    requires
        spells_compare(e, t, i, j),
        ends_compare(t, j),
    ensures
        read_compare(t, i) == Parsed::Ok((e, j)),
    decreases j - i, 1int,
{
    if spells_operand(e, t, i, j) {
        lemma_operand_complete(e, t, i, j);
    } else {
        let (left, op, right) = (*e->Compare_left, e->Compare_op, *e->Compare_right);
        let k = choose|k: int|
            i < k < j - 1 && #[trigger] op_at(t, k) == Some(op) && spells_operand(left, t, i, k)
                && spells_operand(right, t, k + 1, j);
        lemma_operand_complete(left, t, i, k);
        lemma_operand_complete(right, t, k + 1, j);
        assert(e == ExprModel::Compare { left: Box::new(left), op, right: Box::new(right) });
    }
}

proof fn lemma_and_reaches(e: ExprModel, t: Seq<TokenModel>, i: int, j: int)
    requires
        spells_and(e, t, i, j),
        ends_compare(t, j),
    ensures
        read_and(t, i) == read_and_rest(t, e, j),
    decreases j - i, 2int,
{
    lemma_and_starts(e, t, i, j);
    if spells_compare(e, t, i, j) {
        lemma_compare_complete(e, t, i, j);
    } else {
        let (left, right) = (*e->And_0, *e->And_1);
        let k = choose|k: int|
            i < k < j - 1 && #[trigger] mark_at(t, k, Mark::And) && spells_and(left, t, i, k)
                && spells_compare(right, t, k + 1, j);
        lemma_and_reaches(left, t, i, k);
        lemma_compare_complete(right, t, k + 1, j);
        assert(e == ExprModel::And(Box::new(left), Box::new(right)));
    }
}

proof fn lemma_or_reaches(e: ExprModel, t: Seq<TokenModel>, i: int, j: int)
    requires
        spells_or(e, t, i, j),
        ends_and(t, j),
    ensures
        read_or(t, i) == read_or_rest(t, e, j),
    decreases j - i, 3int,
{
    lemma_or_starts(e, t, i, j);
    if spells_and(e, t, i, j) {
        lemma_and_reaches(e, t, i, j);
    } else {
        let (left, right) = (*e->Or_0, *e->Or_1);
        let k = choose|k: int|
            i < k < j - 1 && #[trigger] mark_at(t, k, Mark::Or) && spells_or(left, t, i, k)
                && spells_and(right, t, k + 1, j);
        lemma_or_reaches(left, t, i, k);
        lemma_and_reaches(right, t, k + 1, j);
        assert(e == ExprModel::Or(Box::new(left), Box::new(right)));
    }
}

proof fn lemma_or_complete(e: ExprModel, t: Seq<TokenModel>, i: int, j: int)
    requires
        spells_or(e, t, i, j),
        ends_or(t, j),
    ensures
        read_or(t, i) == Parsed::Ok((e, j)),
    decreases j - i, 4int,
{
    lemma_or_reaches(e, t, i, j);
}

proof fn lemma_args_start(args: Seq<ExprModel>, t: Seq<TokenModel>, i: int, j: int)
    requires
        spells_args(args, t, i, j),
    ensures
        0 <= i < j <= t.len(),
        !mark_at(t, i, Mark::RParen),
    decreases j - i,
{
    let end = if args.len() == 1 {
        j
    } else {
        let k = choose|k: int|
            i < k < j - 1 && #[trigger] mark_at(t, k, Mark::Comma) && spells_or(args[0], t, i, k)
                && spells_args(args.drop_first(), t, k + 1, j);
        lemma_args_start(args.drop_first(), t, k + 1, j);
        k
    };
    lemma_or_starts(args[0], t, i, end);
    lemma_or_opens(args[0], t, i, end);
}

/// Nothing that is spelled starts with a closing parenthesis.
proof fn lemma_or_opens(e: ExprModel, t: Seq<TokenModel>, i: int, j: int)
    requires
        spells_or(e, t, i, j),
    ensures
        !mark_at(t, i, Mark::RParen),
    decreases j - i, 1int,
{
    if spells_and(e, t, i, j) {
        lemma_and_opens(e, t, i, j);
    } else {
        let k = choose|k: int|
            i < k < j - 1 && #[trigger] mark_at(t, k, Mark::Or) && spells_or(*e->Or_0, t, i, k)
                && spells_and(*e->Or_1, t, k + 1, j);
        lemma_or_opens(*e->Or_0, t, i, k);
    }
}

proof fn lemma_and_opens(e: ExprModel, t: Seq<TokenModel>, i: int, j: int)
    requires
        spells_and(e, t, i, j),
    ensures
        !mark_at(t, i, Mark::RParen),
    decreases j - i, 0int,
{
    if !spells_compare(e, t, i, j) {
        let k = choose|k: int|
            i < k < j - 1 && #[trigger] mark_at(t, k, Mark::And) && spells_and(
                *e->And_0,
                t,
                i,
                k,
            ) && spells_compare(*e->And_1, t, k + 1, j);
        lemma_and_opens(*e->And_0, t, i, k);
    }
}

proof fn lemma_args_complete(args: Seq<ExprModel>, t: Seq<TokenModel>, i: int, j: int)
    requires
        spells_args(args, t, i, j),
        mark_at(t, j, Mark::RParen),
    ensures
        read_args(t, i) == Ok::<(Seq<ExprModel>, int), PolicyError>((args, j + 1)),
    decreases j - i, 5int,
{
    if args.len() == 1 {
        lemma_or_complete(args[0], t, i, j);
        lemma_or_starts(args[0], t, i, j);
        assert(args =~= seq![args[0]]);
    } else {
        let k = choose|k: int|
            i < k < j - 1 && #[trigger] mark_at(t, k, Mark::Comma) && spells_or(args[0], t, i, k)
                && spells_args(args.drop_first(), t, k + 1, j);
        lemma_or_complete(args[0], t, i, k);
        lemma_or_starts(args[0], t, i, k);
        lemma_args_complete(args.drop_first(), t, k + 1, j);
        assert(args =~= seq![args[0]] + args.drop_first());
    }
}

/// A text is read as an expression exactly if it spells the expression by the rules of the grammar.
pub proof fn reading_follows_the_grammar(input: Seq<char>, e: ExprModel)
    ensures
        parsed(input) == Ok::<ExprModel, PolicyError>(e) <==> spells(e, input),
{
    if let Ok(t) = tokens_of(input) {
        lemma_or_sound(t, 0);
        if spells_or(e, t, 0, t.len() as int) {
            lemma_or_complete(e, t, 0, t.len() as int);
        }
    }
}

/// The grammar is unambiguous: a text spells at most one expression.
pub proof fn spelling_is_unambiguous(input: Seq<char>, a: ExprModel, b: ExprModel)
    requires
        spells(a, input),
        spells(b, input),
    ensures
        a == b,
{
    reading_follows_the_grammar(input, a);
    reading_follows_the_grammar(input, b);
}

// What surrounds a text.

/// Whether the literal whose text starts at `i` has its closing quote.
pub open spec fn closes(s: Seq<char>, i: int) -> bool
    decreases s.len() - i,
{
    if i < 0 || i >= s.len() {
        false
    } else if s[i] == '"' {
        true
    } else if s[i] == '\\' {
        i + 1 < s.len() && closes(s, i + 2)
    } else {
        closes(s, i + 1)
    }
}

/// Whether every text literal from `i` on has its closing quote.
pub open spec fn literals_close(s: Seq<char>, i: int) -> bool
    decreases s.len() - i,
{
    if i < 0 || i >= s.len() {
        true
    } else {
        proof {
            lemma_token_at(s, i);
        }
        &&& s[i] == '"' ==> closes(s, i + 1)
        &&& token_at(s, i) matches Ok((_, end)) ==> literals_close(s, end)
    }
}

/// A character that ends whatever token stands before it.
spec fn parts(c: char) -> bool {
    !word_char(c) && !number_char(c) && c != '='
}

/// The tokens of one text and then those of another.
spec fn in_turn(
    first: Result<Seq<TokenModel>, PolicyError>,
    second: Result<Seq<TokenModel>, PolicyError>,
) -> Result<Seq<TokenModel>, PolicyError> {
    match (first, second) {
        (Err(error), _) => Err(error),
        (_, Err(error)) => Err(error),
        (Ok(first), Ok(second)) => Ok(first + second),
    }
}

/// What was read, with its end moved on.
spec fn moved<T>(read: Result<(T, int), PolicyError>, by: int) -> Result<(T, int), PolicyError> {
    match read {
        Ok((what, end)) => Ok((what, end + by)),
        Err(error) => Err(error),
    }
}

proof fn lemma_run_behind(before: Seq<char>, s: Seq<char>, i: int, class: spec_fn(char) -> bool)
    requires
        0 <= i <= s.len(),
    ensures
        run_end(before + s, before.len() + i, class) == before.len() + run_end(s, i, class),
        i <= run_end(s, i, class) <= s.len(),
    decreases s.len() - i,
{
    if i < s.len() && class(s[i]) {
        lemma_run_behind(before, s, i + 1, class);
    }
}

proof fn lemma_quoted_behind(before: Seq<char>, s: Seq<char>, i: int)
    requires
        0 <= i <= s.len(),
    ensures
        quoted(before + s, before.len() + i) == moved(quoted(s, i), before.len() as int),
    decreases s.len() - i,
{
    if i < s.len() && s[i] != '"' {
        if s[i] == '\\' {
            if i + 1 < s.len() {
                lemma_quoted_behind(before, s, i + 2);
            }
        } else {
            lemma_quoted_behind(before, s, i + 1);
        }
    }
}

proof fn lemma_token_behind(before: Seq<char>, s: Seq<char>, i: int)
    requires
        0 <= i < s.len(),
    ensures
        token_at(before + s, before.len() + i) == moved(token_at(s, i), before.len() as int),
{
    let whole = before + s;
    let n = before.len();
    lemma_run_behind(before, s, i, |x: char| number_char(x));
    lemma_run_behind(before, s, i, |x: char| word_char(x));
    lemma_quoted_behind(before, s, i + 1);
    let number = run_end(s, i, |x: char| number_char(x));
    let word = run_end(s, i, |x: char| word_char(x));
    assert(whole.subrange(n + i, n + number) =~= s.subrange(i, number));
    assert(whole.subrange(n + i, n + word) =~= s.subrange(i, word));
}

/// What stands before a place does not count for the tokens from there on.
proof fn lemma_tokens_behind(before: Seq<char>, s: Seq<char>, i: int)
    requires
        0 <= i <= s.len(),
    ensures
        tokens_from(before + s, before.len() + i) == tokens_from(s, i),
    decreases s.len() - i,
{
    if i < s.len() {
        lemma_token_at(s, i);
        lemma_token_behind(before, s, i);
        if let Ok((_, end)) = token_at(s, i) {
            lemma_tokens_behind(before, s, end);
        }
    }
}

proof fn lemma_run_ahead(s: Seq<char>, after: Seq<char>, i: int, class: spec_fn(char) -> bool)
    requires
        0 <= i <= s.len(),
        after.len() > 0 ==> !class(after[0]),
    ensures
        run_end(s + after, i, class) == run_end(s, i, class),
        i <= run_end(s, i, class) <= s.len(),
    decreases s.len() - i,
{
    if i < s.len() && class(s[i]) {
        lemma_run_ahead(s, after, i + 1, class);
    }
}

proof fn lemma_quoted_ahead(s: Seq<char>, after: Seq<char>, i: int)
    requires
        closes(s, i),
    ensures
        quoted(s + after, i) == quoted(s, i),
    decreases s.len() - i,
{
    if s[i] != '"' {
        if s[i] == '\\' {
            lemma_quoted_ahead(s, after, i + 2);
        } else {
            lemma_quoted_ahead(s, after, i + 1);
        }
    }
}

proof fn lemma_token_ahead(s: Seq<char>, after: Seq<char>, i: int)
    requires
        0 <= i < s.len(),
        after.len() > 0 ==> parts(after[0]),
        s[i] == '"' ==> closes(s, i + 1),
    ensures
        token_at(s + after, i) == token_at(s, i),
{
    let whole = s + after;
    lemma_run_ahead(s, after, i, |x: char| number_char(x));
    lemma_run_ahead(s, after, i, |x: char| word_char(x));
    if s[i] == '"' {
        lemma_quoted_ahead(s, after, i + 1);
    }
    let number = run_end(s, i, |x: char| number_char(x));
    let word = run_end(s, i, |x: char| word_char(x));
    assert(whole.subrange(i, number) =~= s.subrange(i, number));
    assert(whole.subrange(i, word) =~= s.subrange(i, word));
}

/// Where the literals close and what follows starts with a character that parts, the tokens are
/// those of the one text and then those of the other.
proof fn lemma_tokens_ahead(s: Seq<char>, after: Seq<char>, i: int)
    requires
        0 <= i <= s.len(),
        after.len() > 0 ==> parts(after[0]),
        literals_close(s, i),
    ensures
        tokens_from(s + after, i) == in_turn(tokens_from(s, i), tokens_of(after)),
    decreases s.len() - i,
{
    if i < s.len() {
        lemma_token_at(s, i);
        lemma_token_ahead(s, after, i);
        if let Ok((token, end)) = token_at(s, i) {
            lemma_tokens_ahead(s, after, end);
            if let (Ok(rest), Ok(others)) = (tokens_from(s, end), tokens_of(after)) {
                if let Some(token) = token {
                    assert(seq![token] + (rest + others) =~= (seq![token] + rest) + others);
                }
            }
        }
    } else {
        lemma_tokens_behind(s, after, 0);
        if let Ok(others) = tokens_of(after) {
            assert(Seq::<TokenModel>::empty() + others =~= others);
        }
    }
}

/// Whether every character of the text is a space, a tab or the end of a line.
pub open spec fn all_blank(s: Seq<char>) -> bool {
    forall|i: int|
        0 <= i < s.len() ==> {
            ||| #[trigger] s[i] == ' '
            ||| s[i] == '\t'
            ||| s[i] == '\r'
            ||| s[i] == '\n'
        }
}

proof fn lemma_blank_tokens(s: Seq<char>, i: int)
    requires
        0 <= i <= s.len(),
        all_blank(s),
    ensures
        tokens_from(s, i) == Ok::<Seq<TokenModel>, PolicyError>(Seq::empty()),
    decreases s.len() - i,
{
    if i < s.len() {
        assert(blank(s[i]));
        lemma_blank_tokens(s, i + 1);
    }
}

proof fn lemma_blank_before(before: Seq<char>, s: Seq<char>, i: int)
    requires
        0 <= i <= before.len(),
        all_blank(before),
    ensures
        tokens_from(before + s, i) == tokens_of(s),
    decreases before.len() - i,
{
    if i < before.len() {
        assert(blank(before[i]));
        lemma_blank_before(before, s, i + 1);
    } else {
        lemma_tokens_behind(before, s, 0);
    }
}

/// Blanks before a text never count for what is read, nor do blanks behind it where every literal
/// has its closing quote. (A literal without one takes what follows into its text.)
pub proof fn blanks_around_do_not_count(before: Seq<char>, s: Seq<char>, after: Seq<char>)
    requires
        all_blank(before),
        all_blank(after),
    ensures
        parsed(before + s) == parsed(s),
        literals_close(s, 0) ==> parsed(before + s + after) == parsed(s),
{
    lemma_blank_before(before, s, 0);
    if literals_close(s, 0) {
        assert(before + s + after =~= before + (s + after));
        lemma_blank_before(before, s + after, 0);
        lemma_blank_tokens(after, 0);
        if after.len() > 0 {
            assert(blank(after[0]));
        }
        lemma_tokens_ahead(s, after, 0);
        if let Ok(t) = tokens_of(s) {
            assert(t + Seq::<TokenModel>::empty() =~= t);
        }
    }
}

/// The tokens from `i` up to `j` stand in `u` too, `by` places further on.
spec fn stand_in(t: Seq<TokenModel>, u: Seq<TokenModel>, i: int, j: int, by: int) -> bool {
    &&& 0 <= i <= j <= t.len()
    &&& 0 <= i + by && j + by <= u.len()
    &&& forall|k: int| i <= k < j ==> #[trigger] t[k] == u[k + by]
}

proof fn lemma_operand_moves(
    e: ExprModel,
    t: Seq<TokenModel>,
    u: Seq<TokenModel>,
    i: int,
    j: int,
    by: int,
)
    requires
        spells_operand(e, t, i, j),
        stand_in(t, u, i, j, by),
    ensures
        spells_operand(e, u, i + by, j + by),
    decreases j - i, 0int,
{
    assert(t[i] == u[i + by]);
    match t[i] {
        TokenModel::Identifier(name) => {
            if j >= i + 3 {
                assert(t[i + 1] == u[i + 1 + by]);
                assert(t[j - 1] == u[j - 1 + by]);
            }
            if j > i + 3 {
                lemma_args_move(e->FunctionCall_args, t, u, i + 2, j - 1, by);
            }
        },
        TokenModel::Mark(mark) => {
            assert(t[j - 1] == u[j - 1 + by]);
            lemma_or_moves(e, t, u, i + 1, j - 1, by);
        },
        _ => {},
    }
}

proof fn lemma_compare_moves(
    e: ExprModel,
    t: Seq<TokenModel>,
    u: Seq<TokenModel>,
    i: int,
    j: int,
    by: int,
)
    requires
        spells_compare(e, t, i, j),
        stand_in(t, u, i, j, by),
    ensures
        spells_compare(e, u, i + by, j + by),
    decreases j - i, 1int,
{
    if spells_operand(e, t, i, j) {
        lemma_operand_moves(e, t, u, i, j, by);
    } else {
        let (left, op, right) = (*e->Compare_left, e->Compare_op, *e->Compare_right);
        let k = choose|k: int|
            i < k < j - 1 && #[trigger] op_at(t, k) == Some(op) && spells_operand(left, t, i, k)
                && spells_operand(right, t, k + 1, j);
        assert(t[k] == u[k + by]);
        lemma_operand_moves(left, t, u, i, k, by);
        lemma_operand_moves(right, t, u, k + 1, j, by);
        assert(op_at(u, k + by) == Some(op));
        assert(spells_operand(right, u, (k + by) + 1, j + by));
    }
}

proof fn lemma_and_moves(
    e: ExprModel,
    t: Seq<TokenModel>,
    u: Seq<TokenModel>,
    i: int,
    j: int,
    by: int,
)
    requires
        spells_and(e, t, i, j),
        stand_in(t, u, i, j, by),
    ensures
        spells_and(e, u, i + by, j + by),
    decreases j - i, 2int,
{
    if spells_compare(e, t, i, j) {
        lemma_compare_moves(e, t, u, i, j, by);
    } else {
        let (left, right) = (*e->And_0, *e->And_1);
        let k = choose|k: int|
            i < k < j - 1 && #[trigger] mark_at(t, k, Mark::And) && spells_and(left, t, i, k)
                && spells_compare(right, t, k + 1, j);
        assert(t[k] == u[k + by]);
        lemma_and_moves(left, t, u, i, k, by);
        lemma_compare_moves(right, t, u, k + 1, j, by);
        assert(mark_at(u, k + by, Mark::And));
        assert(spells_compare(right, u, (k + by) + 1, j + by));
    }
}

proof fn lemma_or_moves(
    e: ExprModel,
    t: Seq<TokenModel>,
    u: Seq<TokenModel>,
    i: int,
    j: int,
    by: int,
)
    requires
        spells_or(e, t, i, j),
        stand_in(t, u, i, j, by),
    ensures
        spells_or(e, u, i + by, j + by),
    decreases j - i, 3int,
{
    if spells_and(e, t, i, j) {
        lemma_and_moves(e, t, u, i, j, by);
    } else {
        let (left, right) = (*e->Or_0, *e->Or_1);
        let k = choose|k: int|
            i < k < j - 1 && #[trigger] mark_at(t, k, Mark::Or) && spells_or(left, t, i, k)
                && spells_and(right, t, k + 1, j);
        assert(t[k] == u[k + by]);
        lemma_or_moves(left, t, u, i, k, by);
        lemma_and_moves(right, t, u, k + 1, j, by);
        assert(mark_at(u, k + by, Mark::Or));
        assert(spells_and(right, u, (k + by) + 1, j + by));
    }
}

proof fn lemma_args_move(
    args: Seq<ExprModel>,
    t: Seq<TokenModel>,
    u: Seq<TokenModel>,
    i: int,
    j: int,
    by: int,
)
    requires
        spells_args(args, t, i, j),
        stand_in(t, u, i, j, by),
    ensures
        spells_args(args, u, i + by, j + by),
    decreases j - i, 4int,
{
    if args.len() == 1 {
        lemma_or_moves(args[0], t, u, i, j, by);
    } else {
        let k = choose|k: int|
            i < k < j - 1 && #[trigger] mark_at(t, k, Mark::Comma) && spells_or(args[0], t, i, k)
                && spells_args(args.drop_first(), t, k + 1, j);
        assert(t[k] == u[k + by]);
        lemma_or_moves(args[0], t, u, i, k, by);
        lemma_args_move(args.drop_first(), t, u, k + 1, j, by);
        assert(mark_at(u, k + by, Mark::Comma));
        assert(spells_args(args.drop_first(), u, (k + by) + 1, j + by));
    }
}

/// Parentheses round a text that is read as an expression do not count, where every literal of the
/// text has its closing quote. (A literal without one takes the closing parenthesis into its text.)
pub proof fn parentheses_around_do_not_count(s: Seq<char>, e: ExprModel)
    requires
        literals_close(s, 0),
        parsed(s) == Ok::<ExprModel, PolicyError>(e),
    ensures
        parsed("("@ + s + ")"@) == Ok::<ExprModel, PolicyError>(e),
{
    reveal_strlit("(");
    reveal_strlit(")");
    reading_follows_the_grammar(s, e);
    let t = tokens_of(s)->Ok_0;
    let (open, close) = ("("@, ")"@);
    let (opening, closing) = (TokenModel::Mark(Mark::LParen), TokenModel::Mark(Mark::RParen));
    let whole = open + s + close;
    assert(tokens_of(close) == Ok::<Seq<TokenModel>, PolicyError>(seq![closing])) by {
        assert(tokens_from(close, 1) == Ok::<Seq<TokenModel>, PolicyError>(Seq::empty()));
        assert(seq![closing] + Seq::<TokenModel>::empty() =~= seq![closing]);
    }
    lemma_tokens_ahead(s, close, 0);
    assert(whole =~= open + (s + close));
    lemma_tokens_behind(open, s + close, 0);
    assert(tokens_from(whole, 1) == Ok::<Seq<TokenModel>, PolicyError>(t + seq![closing]));
    let u = seq![opening] + (t + seq![closing]);
    assert(token_at(whole, 0) == Ok::<(Option<TokenModel>, int), PolicyError>((Some(opening), 1)));
    assert(tokens_of(whole) == Ok::<Seq<TokenModel>, PolicyError>(u));
    let n = t.len() as int;
    lemma_or_starts(e, t, 0, n);
    lemma_or_moves(e, t, u, 0, n, 1);
    assert(mark_at(u, n + 1, Mark::RParen));
    assert(spells_operand(e, u, 0, n + 2));
    assert(spells_compare(e, u, 0, n + 2));
    assert(spells_and(e, u, 0, n + 2));
    assert(spells_or(e, u, 0, n + 2));
    reading_follows_the_grammar(whole, e);
}

// How tokens are spelled.

/// How the tokens that are the same wherever they stand are spelled.
pub open spec fn spelling(mark: Mark) -> Seq<char> {
    match mark {
        Mark::And => "and"@,
        Mark::Or => "or"@,
        Mark::Eq => "=="@,
        Mark::Ne => "!="@,
        Mark::Gt => ">"@,
        Mark::Ge => ">="@,
        Mark::Lt => "<"@,
        Mark::Le => "<="@,
        Mark::LParen => "("@,
        Mark::RParen => ")"@,
        Mark::Comma => ","@,
    }
}

/// How comparisons are spelled.
pub open spec fn sign(op: CompareOp) -> Mark {
    match op {
        CompareOp::Eq => Mark::Eq,
        CompareOp::Ne => Mark::Ne,
        CompareOp::Gt => Mark::Gt,
        CompareOp::Ge => Mark::Ge,
        CompareOp::Lt => Mark::Lt,
        CompareOp::Le => Mark::Le,
    }
}

/// Letters, digits and underscores, and no digit in front.
pub open spec fn is_word(text: Seq<char>) -> bool {
    &&& text.len() > 0
    &&& !('0' <= text[0] <= '9')
    &&& forall|i: int|
        0 <= i < text.len() ==> {
            ||| 'a' <= #[trigger] text[i] <= 'z'
            ||| 'A' <= text[i] <= 'Z'
            ||| '0' <= text[i] <= '9'
            ||| text[i] == '_'
        }
}

/// A word that names something.
pub open spec fn is_name(text: Seq<char>) -> bool {
    is_word(text) && text != "and"@ && text != "or"@ && text != "true"@ && text != "false"@
}

proof fn lemma_no_quotes(s: Seq<char>, i: int)
    requires
        0 <= i <= s.len(),
        forall|k: int| 0 <= k < s.len() ==> #[trigger] s[k] != '"',
    ensures
        literals_close(s, i),
    decreases s.len() - i,
{
    if i < s.len() {
        lemma_token_at(s, i);
        if let Ok((_, end)) = token_at(s, i) {
            lemma_no_quotes(s, end);
        }
    }
}

proof fn lemma_whole_run(s: Seq<char>, i: int, class: spec_fn(char) -> bool)
    requires
        0 <= i <= s.len(),
        forall|k: int| 0 <= k < s.len() ==> class(#[trigger] s[k]),
    ensures
        run_end(s, i, class) == s.len(),
    decreases s.len() - i,
{
    if i < s.len() {
        lemma_whole_run(s, i + 1, class);
    }
}

/// One token that is the whole text.
proof fn lemma_only_token(s: Seq<char>, token: TokenModel)
    requires
        s.len() > 0,
        token_at(s, 0) == Ok::<(Option<TokenModel>, int), PolicyError>(
            (Some(token), s.len() as int),
        ),
    ensures
        tokens_of(s) == Ok::<Seq<TokenModel>, PolicyError>(seq![token]),
{
    assert(tokens_from(s, s.len() as int) == Ok::<Seq<TokenModel>, PolicyError>(Seq::empty()));
    assert(seq![token] + Seq::<TokenModel>::empty() =~= seq![token]);
}

/// A word is one token: `and` and `or` are operators, `true` and `false` are texts, and every other
/// word is a name.
pub proof fn words_are_tokens(word: Seq<char>)
    requires
        is_word(word),
    ensures
        tokens_of(word) == Ok::<Seq<TokenModel>, PolicyError>(
            seq![
                if word == "and"@ {
                    TokenModel::Mark(Mark::And)
                } else if word == "or"@ {
                    TokenModel::Mark(Mark::Or)
                } else if word == "true"@ || word == "false"@ {
                    TokenModel::Text(word)
                } else {
                    TokenModel::Identifier(word)
                },
            ],
        ),
        literals_close(word, 0),
{
    let n = word.len() as int;
    assert(word[0] == word[0]);
    assert forall|k: int| 0 <= k < word.len() implies word_char(#[trigger] word[k]) by {}
    lemma_whole_run(word, 0, |x: char| word_char(x));
    assert(word.subrange(0, n) =~= word);
    let token = word_token(word);
    assert(token_at(word, 0) == Ok::<(Option<TokenModel>, int), PolicyError>((Some(token), n)));
    lemma_only_token(word, token);
    lemma_no_quotes(word, 0);
}

/// Every operator, comparison, parenthesis and comma is the token that it is spelled as.
pub proof fn marks_are_tokens(mark: Mark)
    ensures
        tokens_of(spelling(mark)) == Ok::<Seq<TokenModel>, PolicyError>(
            seq![TokenModel::Mark(mark)],
        ),
        literals_close(spelling(mark), 0),
        spelling(mark).len() > 0,
{
    reveal_strlit("and");
    reveal_strlit("or");
    reveal_strlit("==");
    reveal_strlit("!=");
    reveal_strlit(">");
    reveal_strlit(">=");
    reveal_strlit("<");
    reveal_strlit("<=");
    reveal_strlit("(");
    reveal_strlit(")");
    reveal_strlit(",");
    let text = spelling(mark);
    if mark == Mark::And || mark == Mark::Or {
        words_are_tokens(text);
        assert("and"@.len() != "or"@.len());
    } else {
        lemma_only_token(text, TokenModel::Mark(mark));
        lemma_no_quotes(text, 0);
    }
}

/// A decimal numeral is one token, and is the number.
pub proof fn numerals_are_tokens(x: i64)
    ensures
        tokens_of(int_text(x as int)) == Ok::<Seq<TokenModel>, PolicyError>(
            seq![TokenModel::Number(x as int)],
        ),
        literals_close(int_text(x as int), 0),
{
    let text = int_text(x as int);
    let n = text.len() as int;
    numerals_read_back(x);
    assert(text.len() > 0);
    let digits = if text[0] == '-' {
        text.drop_first()
    } else {
        text
    };
    assert forall|k: int| 0 <= k < text.len() implies number_char(#[trigger] text[k]) && text[k]
        != '"' by {
        if text[0] != '-' {
            assert(digits[k] == text[k]);
        } else if k > 0 {
            assert(digits[k - 1] == text[k]);
        }
    }
    lemma_whole_run(text, 0, |c: char| number_char(c));
    assert(text.subrange(0, n) =~= text);
    let token = TokenModel::Number(x as int);
    assert(token_at(text, 0) == Ok::<(Option<TokenModel>, int), PolicyError>((Some(token), n)));
    lemma_only_token(text, token);
    lemma_no_quotes(text, 0);
}

/// A text with a backslash before each quote and each backslash.
pub open spec fn escaped(text: Seq<char>) -> Seq<char>
    decreases text.len(),
{
    if text.len() == 0 {
        Seq::empty()
    } else if text[0] == '"' || text[0] == '\\' {
        seq!['\\', text[0]] + escaped(text.drop_first())
    } else {
        seq![text[0]] + escaped(text.drop_first())
    }
}

proof fn lemma_quoted_escaped(before: Seq<char>, text: Seq<char>)
    ensures
        ({
            let s = before + escaped(text) + seq!['"'];
            &&& quoted(s, before.len() as int) == Ok::<(Seq<char>, int), PolicyError>(
                (text, s.len() as int),
            )
            &&& closes(s, before.len() as int)
        }),
    decreases text.len(),
{
    let s = before + escaped(text) + seq!['"'];
    let n = before.len() as int;
    if text.len() == 0 {
        assert(escaped(text) =~= Seq::<char>::empty());
        assert(s[n] == '"');
        assert(text =~= Seq::<char>::empty());
    } else {
        let rest = text.drop_first();
        assert(text =~= seq![text[0]] + rest);
        if text[0] == '"' || text[0] == '\\' {
            let longer = before + seq!['\\', text[0]];
            assert(s =~= longer + escaped(rest) + seq!['"']);
            assert(s[n] == '\\' && s[n + 1] == text[0]);
            lemma_quoted_escaped(longer, rest);
        } else {
            let longer = before + seq![text[0]];
            assert(s =~= longer + escaped(rest) + seq!['"']);
            assert(s[n] == text[0]);
            lemma_quoted_escaped(longer, rest);
        }
    }
}

/// Any text can be written as a literal: in quotes, with a backslash before each quote and each
/// backslash.
pub proof fn literals_are_tokens(text: Seq<char>)
    ensures
        ({
            let literal = seq!['"'] + escaped(text) + seq!['"'];
            &&& tokens_of(literal) == Ok::<Seq<TokenModel>, PolicyError>(
                seq![TokenModel::Text(text)],
            )
            &&& literals_close(literal, 0)
        }),
{
    let literal = seq!['"'] + escaped(text) + seq!['"'];
    lemma_quoted_escaped(seq!['"'], text);
    assert(literal[0] == '"');
    lemma_only_token(literal, TokenModel::Text(text));
    assert(literals_close(literal, literal.len() as int));
}

/// A character that no token starts with is told.
pub proof fn other_characters_are_refused(c: char, rest: Seq<char>)
    requires
        !("()=!<>,-_ \t\r\n"@.contains(c)),
        c != '"',
        !('0' <= c <= '9'),
        !('a' <= c <= 'z'),
        !('A' <= c <= 'Z'),
    ensures
        parsed(seq![c] + rest) == Err::<ExprModel, PolicyError>(
            PolicyError::UnexpectedCharacter(c),
        ),
{
    reveal_strlit("()=!<>,-_ \t\r\n");
    let all = "()=!<>,-_ \t\r\n"@;
    assert(all[0] == '(' && all[1] == ')' && all[2] == '=' && all[3] == '!' && all[4] == '<'
        && all[5] == '>' && all[6] == ',' && all[7] == '-' && all[8] == '_' && all[9] == ' '
        && all[10] == '\t' && all[11] == '\r' && all[12] == '\n');
    assert(all.contains(all[0]) && all.contains(all[1]) && all.contains(all[2]) && all.contains(
        all[3],
    ) && all.contains(all[4]) && all.contains(all[5]) && all.contains(all[6]) && all.contains(
        all[7],
    ) && all.contains(all[8]) && all.contains(all[9]) && all.contains(all[10]) && all.contains(
        all[11],
    ) && all.contains(all[12]));
    let s = seq![c] + rest;
    assert(s[0] == c);
}

// How expressions are spelled.

proof fn lemma_closes_behind(before: Seq<char>, s: Seq<char>, i: int)
    requires
        0 <= i <= s.len(),
    ensures
        closes(before + s, before.len() + i) == closes(s, i),
    decreases s.len() - i,
{
    if i < s.len() && s[i] != '"' {
        if s[i] == '\\' {
            if i + 1 < s.len() {
                lemma_closes_behind(before, s, i + 2);
            }
        } else {
            lemma_closes_behind(before, s, i + 1);
        }
    }
}

proof fn lemma_literals_behind(before: Seq<char>, s: Seq<char>, i: int)
    requires
        0 <= i <= s.len(),
        literals_close(s, i),
    ensures
        literals_close(before + s, before.len() + i),
    decreases s.len() - i,
{
    if i < s.len() {
        lemma_token_at(s, i);
        lemma_token_behind(before, s, i);
        lemma_closes_behind(before, s, i + 1);
        if let Ok((_, end)) = token_at(s, i) {
            lemma_literals_behind(before, s, end);
        }
    }
}

proof fn lemma_closes_ahead(s: Seq<char>, after: Seq<char>, i: int)
    requires
        closes(s, i),
    ensures
        closes(s + after, i),
    decreases s.len() - i,
{
    if s[i] != '"' {
        if s[i] == '\\' {
            lemma_closes_ahead(s, after, i + 2);
        } else {
            lemma_closes_ahead(s, after, i + 1);
        }
    }
}

proof fn lemma_literals_ahead(s: Seq<char>, after: Seq<char>, i: int)
    requires
        0 <= i <= s.len(),
        after.len() > 0 ==> parts(after[0]),
        literals_close(s, i),
        literals_close(after, 0),
    ensures
        literals_close(s + after, i),
    decreases s.len() - i,
{
    if i < s.len() {
        lemma_token_at(s, i);
        lemma_token_ahead(s, after, i);
        if s[i] == '"' {
            lemma_closes_ahead(s, after, i + 1);
        }
        if let Ok((_, end)) = token_at(s, i) {
            lemma_literals_ahead(s, after, end);
        }
    } else {
        lemma_literals_behind(s, after, 0);
    }
}

/// Whether the text is spelled with the tokens, and its literals close.
spec fn reads(s: Seq<char>, t: Seq<TokenModel>) -> bool {
    tokens_of(s) == Ok::<Seq<TokenModel>, PolicyError>(t) && literals_close(s, 0)
}

proof fn lemma_reads_both(a: Seq<char>, t: Seq<TokenModel>, b: Seq<char>, u: Seq<TokenModel>)
    requires
        reads(a, t),
        reads(b, u),
        b.len() > 0 ==> parts(b[0]),
    ensures
        reads(a + b, t + u),
{
    lemma_tokens_ahead(a, b, 0);
    lemma_literals_ahead(a, b, 0);
}

proof fn lemma_opens_with_parenthesis(b: Seq<char>, u: Seq<TokenModel>)
    requires
        reads(b, u),
    ensures
        reads("("@ + b, seq![TokenModel::Mark(Mark::LParen)] + u),
{
    reveal_strlit("(");
    let open = "("@;
    let whole = open + b;
    lemma_tokens_behind(open, b, 0);
    lemma_literals_behind(open, b, 0);
    assert(whole[0] == '(');
    assert(tokens_of(whole) == Ok::<Seq<TokenModel>, PolicyError>(
        seq![TokenModel::Mark(Mark::LParen)] + u,
    ));
}

/// A text in parentheses.
pub open spec fn wrapped(s: Seq<char>) -> Seq<char> {
    "("@ + s + ")"@
}

proof fn lemma_wrapped(s: Seq<char>, t: Seq<TokenModel>)
    requires
        reads(s, t),
    ensures
        reads(
            wrapped(s),
            seq![TokenModel::Mark(Mark::LParen)] + t + seq![TokenModel::Mark(Mark::RParen)],
        ),
        wrapped(s).len() > 0,
        parts(wrapped(s)[0]),
{
    reveal_strlit("(");
    reveal_strlit(")");
    let close = seq![TokenModel::Mark(Mark::RParen)];
    marks_are_tokens(Mark::RParen);
    lemma_reads_both(s, t, ")"@, close);
    lemma_opens_with_parenthesis(s + ")"@, t + close);
    assert("("@ + s + ")"@ =~= "("@ + (s + ")"@));
    let open = seq![TokenModel::Mark(Mark::LParen)];
    assert(open + (t + close) =~= open + t + close);
    assert(wrapped(s)[0] == '(');
}

/// A mark with a blank on either side.
pub open spec fn between(mark: Mark) -> Seq<char> {
    " "@ + spelling(mark) + " "@
}

proof fn lemma_between(mark: Mark)
    ensures
        reads(between(mark), seq![TokenModel::Mark(mark)]),
        between(mark).len() > 0,
        parts(between(mark)[0]),
{
    reveal_strlit(" ");
    marks_are_tokens(mark);
    let (s, gap) = (spelling(mark), " "@);
    let one = seq![TokenModel::Mark(mark)];
    lemma_blank_tokens(gap, 0);
    lemma_no_quotes(gap, 0);
    lemma_reads_both(s, one, gap, Seq::empty());
    assert(one + Seq::<TokenModel>::empty() =~= one);
    lemma_blank_before(gap, s + gap, 0);
    lemma_literals_behind(gap, s + gap, 0);
    assert(gap + (s + gap) =~= between(mark));
    assert(between(mark)[0] == ' ');
    assert(literals_close(between(mark), 1));
    assert(literals_close(between(mark), 0));
}

/// Two expressions in parentheses with an operator or a comparison between them are that operation or
/// comparison of the two.
pub proof fn operations_are_read(x: Seq<char>, y: Seq<char>, left: ExprModel, right: ExprModel, op: CompareOp)
    requires
        literals_close(x, 0),
        literals_close(y, 0),
        parsed(x) == Ok::<ExprModel, PolicyError>(left),
        parsed(y) == Ok::<ExprModel, PolicyError>(right),
    ensures
        parsed(wrapped(x) + between(Mark::And) + wrapped(y)) == Ok::<ExprModel, PolicyError>(
            ExprModel::And(Box::new(left), Box::new(right)),
        ),
        parsed(wrapped(x) + between(Mark::Or) + wrapped(y)) == Ok::<ExprModel, PolicyError>(
            ExprModel::Or(Box::new(left), Box::new(right)),
        ),
        parsed(wrapped(x) + between(sign(op)) + wrapped(y)) == Ok::<ExprModel, PolicyError>(
            ExprModel::Compare { left: Box::new(left), op, right: Box::new(right) },
        ),
{
    lemma_operation(x, y, left, right, Mark::And);
    lemma_operation(x, y, left, right, Mark::Or);
    lemma_operation(x, y, left, right, sign(op));
    reading_follows_the_grammar(x, left);
    reading_follows_the_grammar(y, right);
    let (n, m) = (tokens_of(x)->Ok_0.len() as int, tokens_of(y)->Ok_0.len() as int);
    let end = n + m + 5;

    let both = wrapped(x) + between(Mark::And) + wrapped(y);
    let e = ExprModel::And(Box::new(left), Box::new(right));
    let u = tokens_of(both)->Ok_0;
    assert(mark_at(u, n + 2, Mark::And));
    assert(spells_compare(left, u, 0, n + 2) && spells_compare(right, u, n + 3, end));
    assert(spells_and(left, u, 0, n + 2));
    assert(spells_compare(right, u, (n + 2) + 1, end));
    assert(spells_and(e, u, 0, end));
    assert(spells_or(e, u, 0, end));
    reading_follows_the_grammar(both, e);

    let either = wrapped(x) + between(Mark::Or) + wrapped(y);
    let e = ExprModel::Or(Box::new(left), Box::new(right));
    let u = tokens_of(either)->Ok_0;
    assert(mark_at(u, n + 2, Mark::Or));
    assert(spells_compare(left, u, 0, n + 2) && spells_compare(right, u, n + 3, end));
    assert(spells_and(left, u, 0, n + 2) && spells_and(right, u, (n + 2) + 1, end));
    assert(spells_or(left, u, 0, n + 2));
    assert(spells_or(e, u, 0, end));
    reading_follows_the_grammar(either, e);

    let compared = wrapped(x) + between(sign(op)) + wrapped(y);
    let e = ExprModel::Compare { left: Box::new(left), op, right: Box::new(right) };
    let u = tokens_of(compared)->Ok_0;
    assert(op_at(u, n + 2) == Some(op));
    assert(spells_operand(right, u, (n + 2) + 1, end));
    assert(spells_compare(e, u, 0, end));
    assert(spells_and(e, u, 0, end));
    assert(spells_or(e, u, 0, end));
    reading_follows_the_grammar(compared, e);
}

/// The tokens of such an operation, and where its operands stand.
proof fn lemma_operation(x: Seq<char>, y: Seq<char>, left: ExprModel, right: ExprModel, mark: Mark)
    requires
        literals_close(x, 0),
        literals_close(y, 0),
        parsed(x) == Ok::<ExprModel, PolicyError>(left),
        parsed(y) == Ok::<ExprModel, PolicyError>(right),
    ensures
        ({
            let (n, m) = (tokens_of(x)->Ok_0.len() as int, tokens_of(y)->Ok_0.len() as int);
            let whole = wrapped(x) + between(mark) + wrapped(y);
            &&& tokens_of(whole) matches Ok(u)
            &&& u.len() == n + m + 5
            &&& u[n + 2] == TokenModel::Mark(mark)
            &&& spells_operand(left, u, 0, n + 2)
            &&& spells_operand(right, u, n + 3, n + m + 5)
        }),
{
    reading_follows_the_grammar(x, left);
    reading_follows_the_grammar(y, right);
    let (t, v) = (tokens_of(x)->Ok_0, tokens_of(y)->Ok_0);
    let (n, m) = (t.len() as int, v.len() as int);
    let (open, close) = (
        seq![TokenModel::Mark(Mark::LParen)],
        seq![TokenModel::Mark(Mark::RParen)],
    );
    let one = seq![TokenModel::Mark(mark)];
    lemma_wrapped(x, t);
    lemma_wrapped(y, v);
    lemma_between(mark);
    let first = open + t + close;
    let second = open + v + close;
    lemma_reads_both(between(mark), one, wrapped(y), second);
    let tail = between(mark) + wrapped(y);
    assert(tail[0] == between(mark)[0]);
    lemma_reads_both(wrapped(x), first, tail, one + second);
    assert(wrapped(x) + between(mark) + wrapped(y) =~= wrapped(x) + tail);
    let u = first + (one + second);
    lemma_or_starts(left, t, 0, n);
    lemma_or_starts(right, v, 0, m);
    lemma_or_moves(left, t, u, 0, n, 1);
    lemma_or_moves(right, v, u, 0, m, n + 4);
    assert(u[0] == open[0] && u[n + 1] == close[0]);
    assert(u[n + 3] == open[0] && u[n + m + 4] == close[0]);
    assert(spells_operand(left, u, 0, n + 2));
    assert(spells_operand(right, u, n + 3, n + m + 5));
}

/// A number, a text and a name are read as what they are.
pub proof fn operands_are_read(x: i64, text: Seq<char>, name: Seq<char>)
    requires
        is_name(name),
    ensures
        parsed(int_text(x as int)) == Ok::<ExprModel, PolicyError>(
            ExprModel::Value(ValueModel::Int(x as int)),
        ),
        parsed(seq!['"'] + escaped(text) + seq!['"']) == Ok::<ExprModel, PolicyError>(
            ExprModel::Value(ValueModel::Str(text)),
        ),
        parsed(name) == Ok::<ExprModel, PolicyError>(ExprModel::Identifier(name)),
{
    numerals_are_tokens(x);
    literals_are_tokens(text);
    words_are_tokens(name);
    lemma_one_operand(
        int_text(x as int),
        TokenModel::Number(x as int),
        ExprModel::Value(ValueModel::Int(x as int)),
    );
    lemma_one_operand(
        seq!['"'] + escaped(text) + seq!['"'],
        TokenModel::Text(text),
        ExprModel::Value(ValueModel::Str(text)),
    );
    lemma_one_operand(name, TokenModel::Identifier(name), ExprModel::Identifier(name));
}

proof fn lemma_one_operand(s: Seq<char>, token: TokenModel, e: ExprModel)
    requires
        tokens_of(s) == Ok::<Seq<TokenModel>, PolicyError>(seq![token]),
        spells_operand(e, seq![token], 0, 1),
    ensures
        parsed(s) == Ok::<ExprModel, PolicyError>(e),
{
    let u = seq![token];
    assert(spells_compare(e, u, 0, 1));
    assert(spells_and(e, u, 0, 1));
    assert(spells_or(e, u, 0, 1));
    reading_follows_the_grammar(s, e);
}

/// A name with expressions in parentheses behind it is a call: of none, of one, or of two with a comma
/// between them.
pub proof fn calls_are_read(
    name: Seq<char>,
    x: Seq<char>,
    y: Seq<char>,
    first: ExprModel,
    second: ExprModel,
)
    requires
        is_name(name),
        literals_close(x, 0),
        literals_close(y, 0),
        parsed(x) == Ok::<ExprModel, PolicyError>(first),
        parsed(y) == Ok::<ExprModel, PolicyError>(second),
    ensures
        parsed(name + "()"@) == Ok::<ExprModel, PolicyError>(
            ExprModel::FunctionCall { name, args: Seq::empty() },
        ),
        parsed(name + wrapped(x)) == Ok::<ExprModel, PolicyError>(
            ExprModel::FunctionCall { name, args: seq![first] },
        ),
        parsed(name + wrapped(x + ","@ + y)) == Ok::<ExprModel, PolicyError>(
            ExprModel::FunctionCall { name, args: seq![first, second] },
        ),
{
    lemma_call_of_none(name);
    lemma_call_of_one(name, x, first);
    lemma_call_of_two(name, x, y, first, second);
}

proof fn lemma_call_of_none(name: Seq<char>)
    requires
        is_name(name),
    ensures
        parsed(name + "()"@) == Ok::<ExprModel, PolicyError>(
            ExprModel::FunctionCall { name, args: Seq::empty() },
        ),
{
    reveal_strlit("()");
    reveal_strlit("(");
    reveal_strlit(")");
    words_are_tokens(name);
    let called = seq![TokenModel::Identifier(name)];
    let (open, close) = (
        seq![TokenModel::Mark(Mark::LParen)],
        seq![TokenModel::Mark(Mark::RParen)],
    );
    let none = Seq::<char>::empty();
    assert(reads(none, Seq::empty()));
    lemma_wrapped(none, Seq::empty());
    assert(wrapped(none) =~= "()"@);
    lemma_reads_both(name, called, "()"@, open + Seq::<TokenModel>::empty() + close);
    let u = called + (open + Seq::<TokenModel>::empty() + close);
    let e = ExprModel::FunctionCall { name, args: Seq::empty() };
    assert(u.len() == 3 && u[0] == called[0] && u[1] == open[0] && u[2] == close[0]);
    assert(mark_at(u, 1, Mark::LParen) && mark_at(u, 2, Mark::RParen));
    assert(spells_operand(e, u, 0, 3));
    lemma_operand_is_read(name + "()"@, u, e);
}

proof fn lemma_call_of_one(name: Seq<char>, x: Seq<char>, first: ExprModel)
    requires
        is_name(name),
        literals_close(x, 0),
        parsed(x) == Ok::<ExprModel, PolicyError>(first),
    ensures
        parsed(name + wrapped(x)) == Ok::<ExprModel, PolicyError>(
            ExprModel::FunctionCall { name, args: seq![first] },
        ),
{
    words_are_tokens(name);
    let called = seq![TokenModel::Identifier(name)];
    let (open, close) = (
        seq![TokenModel::Mark(Mark::LParen)],
        seq![TokenModel::Mark(Mark::RParen)],
    );
    reading_follows_the_grammar(x, first);
    let t = tokens_of(x)->Ok_0;
    let n = t.len() as int;
    lemma_or_starts(first, t, 0, n);
    lemma_wrapped(x, t);
    lemma_reads_both(name, called, wrapped(x), open + t + close);
    let u = called + (open + t + close);
    let e = ExprModel::FunctionCall { name, args: seq![first] };
    lemma_or_moves(first, t, u, 0, n, 2);
    assert(u[0] == called[0] && u[1] == open[0] && u[n + 2] == close[0]);
    assert(mark_at(u, 1, Mark::LParen) && mark_at(u, n + 2, Mark::RParen));
    assert(spells_args(seq![first], u, 2, n + 2));
    assert(spells_operand(e, u, 0, n + 3));
    lemma_operand_is_read(name + wrapped(x), u, e);
}

/// The tokens of a call of two.
spec fn call_of_two(name: Seq<char>, t: Seq<TokenModel>, v: Seq<TokenModel>) -> Seq<TokenModel> {
    seq![TokenModel::Identifier(name)] + (seq![TokenModel::Mark(Mark::LParen)] + (t + (seq![
        TokenModel::Mark(Mark::Comma),
    ] + v)) + seq![TokenModel::Mark(Mark::RParen)])
}

proof fn lemma_call_of_two_spelled(
    name: Seq<char>,
    t: Seq<TokenModel>,
    v: Seq<TokenModel>,
    first: ExprModel,
    second: ExprModel,
)
    requires
        spells_or(first, t, 0, t.len() as int),
        spells_or(second, v, 0, v.len() as int),
    ensures
        ({
            let u = call_of_two(name, t, v);
            let e = ExprModel::FunctionCall { name, args: seq![first, second] };
            spells_operand(e, u, 0, u.len() as int)
        }),
{
    let (n, m) = (t.len() as int, v.len() as int);
    let u = call_of_two(name, t, v);
    let args = seq![first, second];
    let end = n + m + 3;
    lemma_or_starts(first, t, 0, n);
    lemma_or_starts(second, v, 0, m);
    lemma_or_moves(first, t, u, 0, n, 2);
    lemma_or_moves(second, v, u, 0, m, n + 3);
    assert(u.len() == end + 1);
    assert(u[0] == TokenModel::Identifier(name));
    assert(mark_at(u, 1, Mark::LParen) && mark_at(u, n + 2, Mark::Comma) && mark_at(
        u,
        end,
        Mark::RParen,
    ));
    assert(args.drop_first() =~= seq![second]);
    assert(spells_args(seq![second], u, (n + 2) + 1, end));
    assert(spells_args(args, u, 2, end));
}

proof fn lemma_call_of_two(
    name: Seq<char>,
    x: Seq<char>,
    y: Seq<char>,
    first: ExprModel,
    second: ExprModel,
)
    requires
        is_name(name),
        literals_close(x, 0),
        parsed(x) == Ok::<ExprModel, PolicyError>(first),
        literals_close(y, 0),
        parsed(y) == Ok::<ExprModel, PolicyError>(second),
    ensures
        parsed(name + wrapped(x + ","@ + y)) == Ok::<ExprModel, PolicyError>(
            ExprModel::FunctionCall { name, args: seq![first, second] },
        ),
{
    reveal_strlit(",");
    words_are_tokens(name);
    reading_follows_the_grammar(x, first);
    reading_follows_the_grammar(y, second);
    let (t, v) = (tokens_of(x)->Ok_0, tokens_of(y)->Ok_0);
    let comma = seq![TokenModel::Mark(Mark::Comma)];
    let list = x + ","@ + y;
    lemma_comma_before(y, v);
    assert((","@ + y)[0] == ',');
    lemma_reads_both(x, t, ","@ + y, comma + v);
    assert(list =~= x + (","@ + y));
    lemma_wrapped(list, t + (comma + v));
    let inner = seq![TokenModel::Mark(Mark::LParen)] + (t + (comma + v)) + seq![
        TokenModel::Mark(Mark::RParen),
    ];
    lemma_reads_both(name, seq![TokenModel::Identifier(name)], wrapped(list), inner);
    lemma_call_of_two_spelled(name, t, v, first, second);
    lemma_operand_is_read(
        name + wrapped(list),
        call_of_two(name, t, v),
        ExprModel::FunctionCall { name, args: seq![first, second] },
    );
}

proof fn lemma_comma_before(b: Seq<char>, u: Seq<TokenModel>)
    requires
        reads(b, u),
    ensures
        reads(","@ + b, seq![TokenModel::Mark(Mark::Comma)] + u),
{
    reveal_strlit(",");
    let whole = ","@ + b;
    lemma_tokens_behind(","@, b, 0);
    lemma_literals_behind(","@, b, 0);
    assert(whole[0] == ',');
    assert(tokens_of(whole) == Ok::<Seq<TokenModel>, PolicyError>(
        seq![TokenModel::Mark(Mark::Comma)] + u,
    ));
}

proof fn lemma_operand_is_read(s: Seq<char>, u: Seq<TokenModel>, e: ExprModel)
    requires
        tokens_of(s) == Ok::<Seq<TokenModel>, PolicyError>(u),
        spells_operand(e, u, 0, u.len() as int),
    ensures
        parsed(s) == Ok::<ExprModel, PolicyError>(e),
{
    let n = u.len() as int;
    assert(spells_compare(e, u, 0, n));
    assert(spells_and(e, u, 0, n));
    assert(spells_or(e, u, 0, n));
    reading_follows_the_grammar(s, e);
}

/// Of operators without parentheses, `and` binds more tightly than `or`, a comparison more tightly than
/// both, and operators of one kind bind to the left.
pub proof fn operators_bind_in_order(a: Seq<char>, b: Seq<char>, c: Seq<char>, op: CompareOp)
    requires
        is_name(a),
        is_name(b),
        is_name(c),
    ensures
        ({
            let (x, y, z) = (
                ExprModel::Identifier(a),
                ExprModel::Identifier(b),
                ExprModel::Identifier(c),
            );
            let text = |first: Mark, second: Mark| a + between(first) + b + between(second) + c;
            let (and, or, is) = (Mark::And, Mark::Or, sign(op));
            &&& parsed(text(or, and)) == Ok::<ExprModel, PolicyError>(
                either_of(x, both_of(y, z)),
            )
            &&& parsed(text(and, or)) == Ok::<ExprModel, PolicyError>(
                either_of(both_of(x, y), z),
            )
            &&& parsed(text(or, or)) == Ok::<ExprModel, PolicyError>(
                either_of(either_of(x, y), z),
            )
            &&& parsed(text(and, and)) == Ok::<ExprModel, PolicyError>(both_of(both_of(x, y), z))
            &&& parsed(text(is, and)) == Ok::<ExprModel, PolicyError>(
                both_of(compared_as(x, op, y), z),
            )
            &&& parsed(text(and, is)) == Ok::<ExprModel, PolicyError>(
                both_of(x, compared_as(y, op, z)),
            )
            &&& parsed(text(is, or)) == Ok::<ExprModel, PolicyError>(
                either_of(compared_as(x, op, y), z),
            )
            &&& parsed(text(or, is)) == Ok::<ExprModel, PolicyError>(
                either_of(x, compared_as(y, op, z)),
            )
        }),
{
    lemma_or_and(a, b, c);
    lemma_and_or(a, b, c);
    lemma_or_or(a, b, c);
    lemma_and_and(a, b, c);
    lemma_sign_and(a, b, c, op);
    lemma_and_sign(a, b, c, op);
    lemma_sign_or(a, b, c, op);
    lemma_or_sign(a, b, c, op);
}

proof fn lemma_or_and(a: Seq<char>, b: Seq<char>, c: Seq<char>)
    requires
        is_name(a),
        is_name(b),
        is_name(c),
    ensures
        ({
            let (x, y, z) = (
                ExprModel::Identifier(a),
                ExprModel::Identifier(b),
                ExprModel::Identifier(c),
            );
            parsed(a + between(Mark::Or) + b + between(Mark::And) + c) == Ok::<ExprModel, PolicyError>(
                either_of(x, both_of(y, z)),
            )
        }),
{
    let (x, y, z) = (ExprModel::Identifier(a), ExprModel::Identifier(b), ExprModel::Identifier(c));
    lemma_three(a, b, c, Mark::Or, Mark::And);
    let u = three(a, b, c, Mark::Or, Mark::And);
    lemma_names_stand(u, a, b, c);
    assert(mark_at(u, 1, Mark::Or) && mark_at(u, 3, Mark::And));
    assert(spells_and(y, u, 2, 3) && spells_compare(z, u, 4, 5));
    assert(spells_and(both_of(y, z), u, 2, 5));
    assert(spells_or(x, u, 0, 1));
    assert(spells_or(either_of(x, both_of(y, z)), u, 0, 5));
    reading_follows_the_grammar(
        a + between(Mark::Or) + b + between(Mark::And) + c,
        either_of(x, both_of(y, z)),
    );
}

proof fn lemma_and_or(a: Seq<char>, b: Seq<char>, c: Seq<char>)
    requires
        is_name(a),
        is_name(b),
        is_name(c),
    ensures
        ({
            let (x, y, z) = (
                ExprModel::Identifier(a),
                ExprModel::Identifier(b),
                ExprModel::Identifier(c),
            );
            parsed(a + between(Mark::And) + b + between(Mark::Or) + c) == Ok::<ExprModel, PolicyError>(
                either_of(both_of(x, y), z),
            )
        }),
{
    let (x, y, z) = (ExprModel::Identifier(a), ExprModel::Identifier(b), ExprModel::Identifier(c));
    lemma_three(a, b, c, Mark::And, Mark::Or);
    let u = three(a, b, c, Mark::And, Mark::Or);
    lemma_names_stand(u, a, b, c);
    assert(mark_at(u, 1, Mark::And) && mark_at(u, 3, Mark::Or));
    assert(spells_and(x, u, 0, 1) && spells_compare(y, u, 2, 3));
    assert(spells_and(both_of(x, y), u, 0, 3));
    assert(spells_or(both_of(x, y), u, 0, 3) && spells_and(z, u, 4, 5));
    assert(spells_or(either_of(both_of(x, y), z), u, 0, 5));
    reading_follows_the_grammar(
        a + between(Mark::And) + b + between(Mark::Or) + c,
        either_of(both_of(x, y), z),
    );
}

proof fn lemma_or_or(a: Seq<char>, b: Seq<char>, c: Seq<char>)
    requires
        is_name(a),
        is_name(b),
        is_name(c),
    ensures
        ({
            let (x, y, z) = (
                ExprModel::Identifier(a),
                ExprModel::Identifier(b),
                ExprModel::Identifier(c),
            );
            parsed(a + between(Mark::Or) + b + between(Mark::Or) + c) == Ok::<ExprModel, PolicyError>(
                either_of(either_of(x, y), z),
            )
        }),
{
    let (x, y, z) = (ExprModel::Identifier(a), ExprModel::Identifier(b), ExprModel::Identifier(c));
    lemma_three(a, b, c, Mark::Or, Mark::Or);
    let u = three(a, b, c, Mark::Or, Mark::Or);
    lemma_names_stand(u, a, b, c);
    assert(mark_at(u, 1, Mark::Or) && mark_at(u, 3, Mark::Or));
    assert(spells_or(x, u, 0, 1) && spells_and(y, u, 2, 3) && spells_and(z, u, 4, 5));
    assert(spells_or(either_of(x, y), u, 0, 3));
    assert(spells_or(either_of(either_of(x, y), z), u, 0, 5));
    reading_follows_the_grammar(
        a + between(Mark::Or) + b + between(Mark::Or) + c,
        either_of(either_of(x, y), z),
    );
}

proof fn lemma_and_and(a: Seq<char>, b: Seq<char>, c: Seq<char>)
    requires
        is_name(a),
        is_name(b),
        is_name(c),
    ensures
        ({
            let (x, y, z) = (
                ExprModel::Identifier(a),
                ExprModel::Identifier(b),
                ExprModel::Identifier(c),
            );
            parsed(a + between(Mark::And) + b + between(Mark::And) + c) == Ok::<ExprModel, PolicyError>(
                both_of(both_of(x, y), z),
            )
        }),
{
    let (x, y, z) = (ExprModel::Identifier(a), ExprModel::Identifier(b), ExprModel::Identifier(c));
    lemma_three(a, b, c, Mark::And, Mark::And);
    let u = three(a, b, c, Mark::And, Mark::And);
    lemma_names_stand(u, a, b, c);
    assert(mark_at(u, 1, Mark::And) && mark_at(u, 3, Mark::And));
    assert(spells_and(x, u, 0, 1) && spells_compare(y, u, 2, 3) && spells_compare(
        z,
        u,
        4,
        5,
    ));
    assert(spells_and(both_of(x, y), u, 0, 3));
    assert(spells_and(both_of(both_of(x, y), z), u, 0, 5));
    assert(spells_or(both_of(both_of(x, y), z), u, 0, 5));
    reading_follows_the_grammar(
        a + between(Mark::And) + b + between(Mark::And) + c,
        both_of(both_of(x, y), z),
    );
}

proof fn lemma_sign_and(a: Seq<char>, b: Seq<char>, c: Seq<char>, op: CompareOp)
    requires
        is_name(a),
        is_name(b),
        is_name(c),
    ensures
        ({
            let (x, y, z) = (
                ExprModel::Identifier(a),
                ExprModel::Identifier(b),
                ExprModel::Identifier(c),
            );
            parsed(a + between(sign(op)) + b + between(Mark::And) + c) == Ok::<ExprModel, PolicyError>(
                both_of(compared_as(x, op, y), z),
            )
        }),
{
    let (x, y, z) = (ExprModel::Identifier(a), ExprModel::Identifier(b), ExprModel::Identifier(c));
    lemma_three(a, b, c, sign(op), Mark::And);
    let u = three(a, b, c, sign(op), Mark::And);
    lemma_names_stand(u, a, b, c);
    assert(op_at(u, 1) == Some(op) && mark_at(u, 3, Mark::And));
    assert(spells_operand(y, u, 2, 3) && spells_compare(z, u, 4, 5));
    assert(spells_compare(compared_as(x, op, y), u, 0, 3));
    assert(spells_and(compared_as(x, op, y), u, 0, 3));
    assert(spells_and(both_of(compared_as(x, op, y), z), u, 0, 5));
    assert(spells_or(both_of(compared_as(x, op, y), z), u, 0, 5));
    reading_follows_the_grammar(
        a + between(sign(op)) + b + between(Mark::And) + c,
        both_of(compared_as(x, op, y), z),
    );
}

proof fn lemma_and_sign(a: Seq<char>, b: Seq<char>, c: Seq<char>, op: CompareOp)
    requires
        is_name(a),
        is_name(b),
        is_name(c),
    ensures
        ({
            let (x, y, z) = (
                ExprModel::Identifier(a),
                ExprModel::Identifier(b),
                ExprModel::Identifier(c),
            );
            parsed(a + between(Mark::And) + b + between(sign(op)) + c) == Ok::<ExprModel, PolicyError>(
                both_of(x, compared_as(y, op, z)),
            )
        }),
{
    let (x, y, z) = (ExprModel::Identifier(a), ExprModel::Identifier(b), ExprModel::Identifier(c));
    lemma_three(a, b, c, Mark::And, sign(op));
    let u = three(a, b, c, Mark::And, sign(op));
    lemma_names_stand(u, a, b, c);
    assert(mark_at(u, 1, Mark::And) && op_at(u, 3) == Some(op));
    assert(spells_and(x, u, 0, 1) && spells_operand(z, u, 4, 5));
    assert(spells_compare(compared_as(y, op, z), u, 2, 5));
    assert(spells_and(both_of(x, compared_as(y, op, z)), u, 0, 5));
    assert(spells_or(both_of(x, compared_as(y, op, z)), u, 0, 5));
    reading_follows_the_grammar(
        a + between(Mark::And) + b + between(sign(op)) + c,
        both_of(x, compared_as(y, op, z)),
    );
}

proof fn lemma_sign_or(a: Seq<char>, b: Seq<char>, c: Seq<char>, op: CompareOp)
    requires
        is_name(a),
        is_name(b),
        is_name(c),
    ensures
        ({
            let (x, y, z) = (
                ExprModel::Identifier(a),
                ExprModel::Identifier(b),
                ExprModel::Identifier(c),
            );
            parsed(a + between(sign(op)) + b + between(Mark::Or) + c) == Ok::<ExprModel, PolicyError>(
                either_of(compared_as(x, op, y), z),
            )
        }),
{
    let (x, y, z) = (ExprModel::Identifier(a), ExprModel::Identifier(b), ExprModel::Identifier(c));
    lemma_three(a, b, c, sign(op), Mark::Or);
    let u = three(a, b, c, sign(op), Mark::Or);
    lemma_names_stand(u, a, b, c);
    assert(op_at(u, 1) == Some(op) && mark_at(u, 3, Mark::Or));
    assert(spells_operand(y, u, 2, 3) && spells_and(z, u, 4, 5));
    assert(spells_compare(compared_as(x, op, y), u, 0, 3));
    assert(spells_and(compared_as(x, op, y), u, 0, 3));
    assert(spells_or(compared_as(x, op, y), u, 0, 3));
    assert(spells_or(either_of(compared_as(x, op, y), z), u, 0, 5));
    reading_follows_the_grammar(
        a + between(sign(op)) + b + between(Mark::Or) + c,
        either_of(compared_as(x, op, y), z),
    );
}

proof fn lemma_or_sign(a: Seq<char>, b: Seq<char>, c: Seq<char>, op: CompareOp)
    requires
        is_name(a),
        is_name(b),
        is_name(c),
    ensures
        ({
            let (x, y, z) = (
                ExprModel::Identifier(a),
                ExprModel::Identifier(b),
                ExprModel::Identifier(c),
            );
            parsed(a + between(Mark::Or) + b + between(sign(op)) + c) == Ok::<ExprModel, PolicyError>(
                either_of(x, compared_as(y, op, z)),
            )
        }),
{
    let (x, y, z) = (ExprModel::Identifier(a), ExprModel::Identifier(b), ExprModel::Identifier(c));
    lemma_three(a, b, c, Mark::Or, sign(op));
    let u = three(a, b, c, Mark::Or, sign(op));
    lemma_names_stand(u, a, b, c);
    assert(mark_at(u, 1, Mark::Or) && op_at(u, 3) == Some(op));
    assert(spells_or(x, u, 0, 1) && spells_operand(z, u, 4, 5));
    assert(spells_compare(compared_as(y, op, z), u, 2, 5));
    assert(spells_and(compared_as(y, op, z), u, 2, 5));
    assert(spells_or(either_of(x, compared_as(y, op, z)), u, 0, 5));
    reading_follows_the_grammar(
        a + between(Mark::Or) + b + between(sign(op)) + c,
        either_of(x, compared_as(y, op, z)),
    );
}

/// Both of two expressions.
pub open spec fn both_of(left: ExprModel, right: ExprModel) -> ExprModel {
    ExprModel::And(Box::new(left), Box::new(right))
}

/// Either of two expressions.
pub open spec fn either_of(left: ExprModel, right: ExprModel) -> ExprModel {
    ExprModel::Or(Box::new(left), Box::new(right))
}

/// A comparison of two expressions.
pub open spec fn compared_as(left: ExprModel, op: CompareOp, right: ExprModel) -> ExprModel {
    ExprModel::Compare { left: Box::new(left), op, right: Box::new(right) }
}

/// The tokens of three names with marks between them.
spec fn three(a: Seq<char>, b: Seq<char>, c: Seq<char>, first: Mark, second: Mark) -> Seq<
    TokenModel,
> {
    seq![
        TokenModel::Identifier(a),
        TokenModel::Mark(first),
        TokenModel::Identifier(b),
        TokenModel::Mark(second),
        TokenModel::Identifier(c),
    ]
}

proof fn lemma_three(a: Seq<char>, b: Seq<char>, c: Seq<char>, first: Mark, second: Mark)
    requires
        is_name(a),
        is_name(b),
        is_name(c),
    ensures
        tokens_of(a + between(first) + b + between(second) + c) == Ok::<
            Seq<TokenModel>,
            PolicyError,
        >(three(a, b, c, first, second)),
{
    words_are_tokens(a);
    words_are_tokens(b);
    words_are_tokens(c);
    lemma_between(first);
    lemma_between(second);
    let (x, y, z) = (
        seq![TokenModel::Identifier(a)],
        seq![TokenModel::Identifier(b)],
        seq![TokenModel::Identifier(c)],
    );
    let (m, k) = (seq![TokenModel::Mark(first)], seq![TokenModel::Mark(second)]);
    lemma_blank_then(second, c, z);
    let tail = between(second) + c;
    lemma_reads_both(b, y, tail, k + z);
    lemma_blank_then(first, b + tail, y + (k + z));
    let more = between(first) + (b + tail);
    lemma_reads_both(a, x, more, m + (y + (k + z)));
    assert(a + between(first) + b + between(second) + c =~= a + more);
    assert(x + (m + (y + (k + z))) =~= three(a, b, c, first, second));
}

/// A mark with blanks and then a text that is no continuation of it.
proof fn lemma_blank_then(mark: Mark, b: Seq<char>, u: Seq<TokenModel>)
    requires
        reads(b, u),
    ensures
        reads(between(mark) + b, seq![TokenModel::Mark(mark)] + u),
        (between(mark) + b).len() > 0,
        parts((between(mark) + b)[0]),
{
    reveal_strlit(" ");
    let gap = " "@;
    let s = spelling(mark);
    let one = seq![TokenModel::Mark(mark)];
    marks_are_tokens(mark);
    lemma_blank_before(gap, b, 0);
    lemma_literals_behind(gap, b, 0);
    assert((gap + b)[0] == ' ');
    assert(literals_close(gap + b, 1));
    assert(literals_close(gap + b, 0));
    lemma_reads_both(s, one, gap + b, u);
    let rest = s + (gap + b);
    lemma_blank_before(gap, rest, 0);
    lemma_literals_behind(gap, rest, 0);
    assert((gap + rest)[0] == ' ');
    assert(literals_close(gap + rest, 1));
    assert(literals_close(gap + rest, 0));
    assert(between(mark) + b =~= gap + rest);
}

proof fn lemma_names_stand(u: Seq<TokenModel>, a: Seq<char>, b: Seq<char>, c: Seq<char>)
    requires
        u.len() == 5,
        u[0] == TokenModel::Identifier(a),
        u[2] == TokenModel::Identifier(b),
        u[4] == TokenModel::Identifier(c),
    ensures
        spells_operand(ExprModel::Identifier(a), u, 0, 1),
        spells_operand(ExprModel::Identifier(b), u, 2, 3),
        spells_operand(ExprModel::Identifier(c), u, 4, 5),
        spells_compare(ExprModel::Identifier(a), u, 0, 1),
        spells_compare(ExprModel::Identifier(b), u, 2, 3),
        spells_compare(ExprModel::Identifier(c), u, 4, 5),
        spells_and(ExprModel::Identifier(a), u, 0, 1),
        spells_and(ExprModel::Identifier(b), u, 2, 3),
        spells_and(ExprModel::Identifier(c), u, 4, 5),
        spells_or(ExprModel::Identifier(a), u, 0, 1),
{
    assert(spells_operand(ExprModel::Identifier(a), u, 0, 1));
    assert(spells_operand(ExprModel::Identifier(b), u, 2, 3));
    assert(spells_operand(ExprModel::Identifier(c), u, 4, 5));
    assert(spells_compare(ExprModel::Identifier(a), u, 0, 1));
    assert(spells_compare(ExprModel::Identifier(b), u, 2, 3));
    assert(spells_compare(ExprModel::Identifier(c), u, 4, 5));
    assert(spells_and(ExprModel::Identifier(a), u, 0, 1));
}

/// A sign of a comparison that is not finished is refused.
pub proof fn unfinished_signs_are_refused(rest: Seq<char>)
    requires
        rest.len() > 0 ==> rest[0] != '=',
    ensures
        parsed(seq!['='] + rest) == Err::<ExprModel, PolicyError>(PolicyError::ExpectedEq),
        parsed(seq!['!'] + rest) == Err::<ExprModel, PolicyError>(PolicyError::ExpectedNe),
{
    assert((seq!['='] + rest)[0] == '=');
    assert((seq!['!'] + rest)[0] == '!');
}

/// A word goes on for as long as there are letters, digits and underscores, and no further; a number
/// for as long as there are digits and minus signs. What follows is read by itself.
pub proof fn words_and_numbers_end_at_other_characters(word: Seq<char>, x: i64, rest: Seq<char>)
    requires
        is_name(word),
        rest.len() > 0,
    ensures
        !('a' <= rest[0] <= 'z') && !('A' <= rest[0] <= 'Z') && !('0' <= rest[0] <= '9') && rest[0]
            != '_' ==> tokens_of(word + rest) == (match tokens_of(rest) {
            Ok(others) => Ok::<Seq<TokenModel>, PolicyError>(
                seq![TokenModel::Identifier(word)] + others,
            ),
            Err(error) => Err(error),
        }),
        !('0' <= rest[0] <= '9') && rest[0] != '-' ==> tokens_of(int_text(x as int) + rest) == (
        match tokens_of(rest) {
            Ok(others) => Ok::<Seq<TokenModel>, PolicyError>(
                seq![TokenModel::Number(x as int)] + others,
            ),
            Err(error) => Err(error),
        }),
{
    let n = word.len() as int;
    let whole = word + rest;
    if !word_char(rest[0]) {
        assert forall|k: int| 0 <= k < word.len() implies word_char(#[trigger] word[k]) by {}
        lemma_whole_run(word, 0, |c: char| word_char(c));
        lemma_run_ahead(word, rest, 0, |c: char| word_char(c));
        assert(whole.subrange(0, n) =~= word);
        assert(whole[0] == word[0]);
        assert(token_at(whole, 0) == Ok::<(Option<TokenModel>, int), PolicyError>(
            (Some(TokenModel::Identifier(word)), n),
        ));
        lemma_tokens_behind(word, rest, 0);
    }
    if !number_char(rest[0]) {
        lemma_number_then(x, rest);
    }
}

proof fn lemma_number_then(x: i64, rest: Seq<char>)
    requires
        rest.len() > 0,
        !number_char(rest[0]),
    ensures
        tokens_of(int_text(x as int) + rest) == (match tokens_of(rest) {
            Ok(others) => Ok::<Seq<TokenModel>, PolicyError>(
                seq![TokenModel::Number(x as int)] + others,
            ),
            Err(error) => Err(error),
        }),
{
    let text = int_text(x as int);
    let n = text.len() as int;
    let whole = text + rest;
    numerals_read_back(x);
    let digits = if text[0] == '-' {
        text.drop_first()
    } else {
        text
    };
    assert forall|k: int| 0 <= k < text.len() implies number_char(#[trigger] text[k]) by {
        if text[0] != '-' {
            assert(digits[k] == text[k]);
        } else if k > 0 {
            assert(digits[k - 1] == text[k]);
        }
    }
    lemma_whole_run(text, 0, |c: char| number_char(c));
    lemma_run_ahead(text, rest, 0, |c: char| number_char(c));
    assert(whole.subrange(0, n) =~= text);
    assert(whole[0] == text[0]);
    assert(token_at(whole, 0) == Ok::<(Option<TokenModel>, int), PolicyError>(
        (Some(TokenModel::Number(x as int)), n),
    ));
    lemma_tokens_behind(text, rest, 0);
}

} // verus!
