//! Laws of evaluation: what holds of every expression of a given shape.

use vstd::prelude::*;
use crate::error::{EvalError, Halted, Missing};
use crate::evaluator::{evaluate, lemma_run_end, resolve, State};
use crate::operator::Operator;
use crate::passes::{
    balanced, is_token, lemma_close, lemma_close_empty, lemma_inside, lemma_inside_group,
    lemma_last_group, lemma_last_operand, lemma_literal, lemma_open, lemma_operand,
    lemma_operand_of_tighter, lemma_operator_after_group, lemma_spaces, lemma_unexpected,
    lemma_unopened, level, operand_at, plain, spaces, stands_at,
};
use crate::reals::{combined, Fact};
use crate::text::{digit_of, lemma_parse_render, lemma_render_nat, render_int, render_nat};
use crate::type_enum::{apply, coerce, quotient, remainder, repeat, wrap, Type, Value};

verus! {

/// An operand token with the operator that follows it: the token, `before` spaces,
/// the operator, `after` spaces.
pub open spec fn with_operator(t: Seq<char>, before: nat, operator: Operator, after: nat) -> Seq<
    char,
> {
    t + spaces(before) + seq![operator.symbol_of()] + spaces(after)
}

/// The expression `x op y`, with one space on each side of the operator.
pub open spec fn binary(x: Seq<char>, operator: Operator, y: Seq<char>) -> Seq<char> {
    with_operator(x, 1, operator, 1) + y
}

/// The expression `x first y second z`, with one space on each side of each operator.
pub open spec fn ternary(
    x: Seq<char>,
    first: Operator,
    y: Seq<char>,
    second: Operator,
    z: Seq<char>,
) -> Seq<char> {
    with_operator(x, 1, first, 1) + with_operator(y, 1, second, 1) + z
}

/// The expression `(x + y) * z`.
pub open spec fn product_of_sum(x: Seq<char>, y: Seq<char>, z: Seq<char>) -> Seq<char> {
    seq!['('] + binary(x, Operator::Add, y) + seq![')'] + spaces(1) + seq!['*'] + spaces(1) + z
}

/// The expression `x*z + y*z`.
pub open spec fn sum_of_products(x: Seq<char>, y: Seq<char>, z: Seq<char>) -> Seq<char> {
    with_operator(x, 0, Operator::Mul, 0) + with_operator(z, 1, Operator::Add, 1) + with_operator(
        y,
        0,
        Operator::Mul,
        0,
    ) + z
}

/// Where an operand and its operator stand in an expression that is made of what
/// comes before them, the two, and what comes after them.
pub proof fn lemma_operand_stands(
    head: Seq<char>,
    t: Seq<char>,
    before: nat,
    operator: Operator,
    after: nat,
    tail: Seq<char>,
)
    ensures
        operand_at(
            head + with_operator(t, before, operator, after) + tail,
            head.len() as int,
            t,
            before,
            operator,
            after,
        ),
        with_operator(t, before, operator, after).len() == t.len() + before + 1 + after,
{
}

/// Where the text stands that ends an expression.
pub proof fn lemma_end_stands(head: Seq<char>, t: Seq<char>)
    ensures
        stands_at(head + t, head.len() as int, t),
        (head + t).len() == head.len() + t.len(),
{
}

/// An expression that is one operand token has the value of the token: the value
/// bound to it where it names a variable, whatever the token looks like, and else the
/// value that it stands for as a literal.
pub proof fn law_operand(t: Seq<char>, env: Map<Seq<char>, Type>, facts: Seq<Fact>)
    requires
        is_token(t),
    ensures
        evaluate(t, env, facts) == resolve(t, env, facts),
        env.contains_key(t) ==> evaluate(t, env, facts) == Ok::<Value, Halted>(env[t]@),
        !env.contains_key(t) ==> evaluate(t, env, facts) == coerce(t, facts),
{
    assert(stands_at(t, 0, t));
    lemma_last_operand(t, 0, t, State::fresh(), env, facts);
}

/// An expression of two operand tokens and an operator between them, with any number
/// of spaces around the operator, has the value of the operator on the values of the
/// tokens, left and right. Where a token has no value yet, or the operator fails, so
/// does the expression, for the same reason.
pub proof fn law_binary_spaced(
    x: Seq<char>,
    before: nat,
    operator: Operator,
    after: nat,
    y: Seq<char>,
    env: Map<Seq<char>, Type>,
    facts: Seq<Fact>,
)
    requires
        is_token(x),
        is_token(y),
    ensures
        evaluate(with_operator(x, before, operator, after) + y, env, facts) == match resolve(
            x,
            env,
            facts,
        ) {
            Err(halt) => Err(halt),
            Ok(left) => match resolve(y, env, facts) {
                Err(halt) => Err(halt),
                Ok(right) => apply(operator, left, right, facts),
            },
        },
{
    let first = with_operator(x, before, operator, after);
    let s = first + y;
    let none = Seq::<char>::empty();
    lemma_operand_stands(none, x, before, operator, after, y);
    assert(s =~= none + first + y);
    lemma_end_stands(first, y);
    lemma_operand(s, 0, x, before, operator, after, State::fresh(), env, facts);
    match resolve(x, env, facts) {
        Err(halt) => {},
        Ok(left) => {
            lemma_last_operand(s, first.len() as int, y, State::resumed(left, operator), env, facts);
        },
    }
}

/// An expression of two operand tokens and an operator between them has the value of
/// the operator on the values of the tokens, left and right. Where a token has no
/// value yet, or the operator fails, so does the expression, for the same reason.
pub proof fn law_binary(
    x: Seq<char>,
    operator: Operator,
    y: Seq<char>,
    env: Map<Seq<char>, Type>,
    facts: Seq<Fact>,
)
    requires
        is_token(x),
        is_token(y),
    ensures
        evaluate(binary(x, operator, y), env, facts) == match resolve(x, env, facts) {
            Err(halt) => Err(halt),
            Ok(left) => match resolve(y, env, facts) {
                Err(halt) => Err(halt),
                Ok(right) => apply(operator, left, right, facts),
            },
        },
{
    law_binary_spaced(x, 1, operator, 1, y, env, facts);
}

/// What two operators give on three values when the second binds tighter than the
/// first: the second is applied to the last two values, then the first.
pub open spec fn right_first(
    first: Operator,
    second: Operator,
    x: Value,
    y: Value,
    z: Value,
    facts: Seq<Fact>,
) -> Result<Value, Halted> {
    match apply(second, y, z, facts) {
        Err(halt) => Err(halt),
        Ok(right) => apply(first, x, right, facts),
    }
}

/// Precedence: in an expression of three operand tokens, `*`, `/` or `%` after `+` or
/// `-` is applied first; any other two operators are applied from left to right. The
/// expression fails where a token has no value yet or an operator fails, for the same
/// reason.
pub proof fn law_precedence(
    x: Seq<char>,
    first: Operator,
    y: Seq<char>,
    second: Operator,
    z: Seq<char>,
    env: Map<Seq<char>, Type>,
    facts: Seq<Fact>,
)
    requires
        is_token(x),
        is_token(y),
        is_token(z),
    ensures
        evaluate(ternary(x, first, y, second, z), env, facts) == match resolve(x, env, facts) {
            Err(halt) => Err(halt),
            Ok(a) => match resolve(y, env, facts) {
                Err(halt) => Err(halt),
                Ok(b) => if second.is_tight() && !first.is_tight() {
                    match resolve(z, env, facts) {
                        Err(halt) => Err(halt),
                        Ok(c) => right_first(first, second, a, b, c, facts),
                    }
                } else {
                    match apply(first, a, b, facts) {
                        Err(halt) => Err(halt),
                        Ok(left) => match resolve(z, env, facts) {
                            Err(halt) => Err(halt),
                            Ok(c) => apply(second, left, c, facts),
                        },
                    }
                },
            },
        },
{
    let one = with_operator(x, 1, first, 1);
    let two = with_operator(y, 1, second, 1);
    let s = ternary(x, first, y, second, z);
    let none = Seq::<char>::empty();
    let p = one.len() as int;
    let q = p + two.len();
    lemma_operand_stands(none, x, 1, first, 1, two + z);
    assert(s =~= none + one + (two + z));
    lemma_operand_stands(one, y, 1, second, 1, z);
    lemma_end_stands(one + two, z);
    lemma_operand(s, 0, x, 1, first, 1, State::fresh(), env, facts);
    match resolve(x, env, facts) {
        Err(halt) => {},
        Ok(a) => {
            let st1 = State::resumed(a, first);
            if second.is_tight() && !first.is_tight() {
                lemma_operand_of_tighter(s, p, y, 1, second, 1, st1, env, facts);
                match resolve(y, env, facts) {
                    Err(halt) => {},
                    Ok(b) => {
                        lemma_last_operand(s, q, z, State::resumed(b, second), env, facts);
                    },
                }
            } else {
                lemma_operand(s, p, y, 1, second, 1, st1, env, facts);
                match resolve(y, env, facts) {
                    Err(halt) => {},
                    Ok(b) => {
                        match apply(first, a, b, facts) {
                            Err(halt) => {},
                            Ok(left) => {
                                let st2 = State {
                                    buffer: Seq::empty(),
                                    operand: Some(b),
                                    pending: Some((left, second)),
                                    expected: false,
                                    ..st1
                                };
                                lemma_last_operand(s, q, z, st2, env, facts);
                            },
                        }
                    },
                }
            }
        },
    }
}

/// An expression of nothing but spaces, or of nothing at all, is empty.
pub proof fn law_empty(count: nat, env: Map<Seq<char>, Type>, facts: Seq<Fact>)
    ensures
        evaluate(spaces(count), env, facts) == Err::<Value, Halted>(
            Halted::Failed(EvalError::EmptyExpression),
        ),
{
    let s = spaces(count);
    assert(stands_at(s, 0, s));
    lemma_spaces(s, 0, count, State::fresh(), env, facts);
    lemma_run_end(s, count as int, State::fresh(), env, facts);
}

/// An operator other than `-` cannot begin an expression.
pub proof fn law_leading_operator(
    before: nat,
    operator: Operator,
    rest: Seq<char>,
    env: Map<Seq<char>, Type>,
    facts: Seq<Fact>,
)
    requires
        operator != Operator::Sub,
    ensures
        evaluate(spaces(before) + seq![operator.symbol_of()] + rest, env, facts) == Err::<
            Value,
            Halted,
        >(Halted::Failed(EvalError::UnexpectedOperator { previous: None, found: operator })),
{
    let s = spaces(before) + seq![operator.symbol_of()] + rest;
    assert(stands_at(s, 0, spaces(before)));
    lemma_spaces(s, 0, before, State::fresh(), env, facts);
    assert(s[before as int] == operator.symbol_of());
    lemma_unexpected(s, before as int, operator, State::fresh(), env, facts);
}

/// An operator other than `-` cannot follow an operator: whatever comes after the
/// two, the expression fails, and the error names both.
pub proof fn law_doubled_operator(
    x: Seq<char>,
    before: nat,
    first: Operator,
    after: nat,
    second: Operator,
    rest: Seq<char>,
    env: Map<Seq<char>, Type>,
    facts: Seq<Fact>,
)
    requires
        is_token(x),
        second != Operator::Sub,
    ensures
        evaluate(
            with_operator(x, before, first, after) + seq![second.symbol_of()] + rest,
            env,
            facts,
        ) == match resolve(x, env, facts) {
            Err(halt) => Err::<Value, Halted>(halt),
            Ok(_) => Err(
                Halted::Failed(
                    EvalError::UnexpectedOperator { previous: Some(first), found: second },
                ),
            ),
        },
{
    let one = with_operator(x, before, first, after);
    let tail = seq![second.symbol_of()] + rest;
    let s = one + seq![second.symbol_of()] + rest;
    let none = Seq::<char>::empty();
    lemma_operand_stands(none, x, before, first, after, tail);
    assert(s =~= none + one + tail);
    lemma_operand(s, 0, x, before, first, after, State::fresh(), env, facts);
    match resolve(x, env, facts) {
        Err(halt) => {},
        Ok(left) => {
            assert(s[one.len() as int] == second.symbol_of());
            lemma_unexpected(s, one.len() as int, second, State::resumed(left, first), env, facts);
        },
    }
}

/// A `)` that no `(` has opened makes the expression fail, whatever comes after it.
pub proof fn law_unopened(
    literal: Seq<char>,
    rest: Seq<char>,
    env: Map<Seq<char>, Type>,
    facts: Seq<Fact>,
)
    requires
        forall|k: int| 0 <= k < literal.len() ==> plain(#[trigger] literal[k]),
    ensures
        evaluate(literal + seq![')'] + rest, env, facts) == Err::<Value, Halted>(
            Halted::Failed(EvalError::UnbalancedParentheses(Missing::Opening)),
        ),
{
    let s = literal + seq![')'] + rest;
    let st0 = State::fresh();
    assert(stands_at(s, 0, literal));
    lemma_literal(s, 0, literal, st0, env, facts);
    let st1 = State { buffer: st0.buffer + literal, expected: literal.len() > 0, ..st0 };
    assert(s[literal.len() as int] == ')');
    lemma_unopened(s, literal.len() as int, st1, env, facts);
}

/// A `(` that is never closed makes the expression fail, whatever stands in the
/// group.
pub proof fn law_unclosed(g: Seq<char>, env: Map<Seq<char>, Type>, facts: Seq<Fact>)
    requires
        forall|k: int| 0 <= k <= g.len() ==> level(#[trigger] g.take(k)) >= 0,
    ensures
        evaluate(seq!['('] + g, env, facts) == Err::<Value, Halted>(
            Halted::Failed(EvalError::UnbalancedParentheses(Missing::Closing)),
        ),
{
    let s = seq!['('] + g;
    let n = g.len() as int;
    let st0 = State::fresh();
    lemma_open(s, 0, st0, env, facts);
    let st1 = State { depth: 1, opened: 0, ..st0 };
    assert(stands_at(s, 1, g));
    lemma_inside_group(s, 1, g, n, st1, env, facts);
    assert(level(g.take(n)) >= 0);
    let st2 = State { depth: (1 + level(g.take(n))) as nat, ..st1 };
    lemma_run_end(s, n + 1, st2, env, facts);
}

/// An integer in the 32-bit signed range.
pub open spec fn fits(i: int) -> bool {
    i32::MIN <= i <= i32::MAX
}

/// The distance of an integer from zero, as a natural number.
pub open spec fn magnitude_of(i: int) -> nat {
    if i < 0 {
        (-i) as nat
    } else {
        i as nat
    }
}

/// The decimal form of an integer is an operand token without parentheses.
pub proof fn lemma_render_is_token(i: int)
    ensures
        is_token(render_int(i)),
        forall|k: int|
            0 <= k < render_int(i).len() ==> #[trigger] render_int(i)[k] != '(' && render_int(
                i,
            )[k] != ')',
{
    let digits = render_nat(magnitude_of(i));
    let t = render_int(i);
    lemma_render_nat(magnitude_of(i));
    assert forall|k: int| 0 <= k < digits.len() implies plain(#[trigger] digits[k]) by {
        assert(digit_of(digits[k]) is Some);
    }
    if i < 0 {
        assert(t =~= seq!['-'] + digits);
        assert(t.last() == digits.last());
        assert forall|k: int| 1 <= k < t.len() implies plain(#[trigger] t[k]) by {
            assert(t[k] == digits[k - 1]);
        }
    } else {
        assert(t == digits);
    }
}

/// Where no variable has its name, the decimal form of a 32-bit integer stands for
/// that integer.
pub proof fn lemma_resolve_integer(i: int, env: Map<Seq<char>, Type>, facts: Seq<Fact>)
    requires
        fits(i),
        !env.contains_key(render_int(i)),
    ensures
        resolve(render_int(i), env, facts) == Ok::<Value, Halted>(Value::Int(i)),
{
    lemma_parse_render(i);
}

/// An expression of two integer literals and an operator between them has the value
/// of the operator on the two integers.
pub proof fn lemma_integer_binary(
    a: int,
    operator: Operator,
    b: int,
    env: Map<Seq<char>, Type>,
    facts: Seq<Fact>,
)
    requires
        fits(a),
        fits(b),
        !env.contains_key(render_int(a)),
        !env.contains_key(render_int(b)),
    ensures
        evaluate(binary(render_int(a), operator, render_int(b)), env, facts) == apply(
            operator,
            Value::Int(a),
            Value::Int(b),
            facts,
        ),
{
    lemma_render_is_token(a);
    lemma_render_is_token(b);
    lemma_resolve_integer(a, env, facts);
    lemma_resolve_integer(b, env, facts);
    law_binary(render_int(a), operator, render_int(b), env, facts);
}

/// The sum, the difference and the product of two integer literals are those of
/// 32-bit two's complement arithmetic: the exact result wherever it fits in 32 bits,
/// and else the exact result wrapped.
pub proof fn law_integer_arithmetic(
    a: int,
    b: int,
    env: Map<Seq<char>, Type>,
    facts: Seq<Fact>,
)
    requires
        fits(a),
        fits(b),
        !env.contains_key(render_int(a)),
        !env.contains_key(render_int(b)),
    ensures
        evaluate(binary(render_int(a), Operator::Add, render_int(b)), env, facts) == Ok::<
            Value,
            Halted,
        >(Value::Int(wrap(a + b))),
        evaluate(binary(render_int(a), Operator::Sub, render_int(b)), env, facts) == Ok::<
            Value,
            Halted,
        >(Value::Int(wrap(a - b))),
        evaluate(binary(render_int(a), Operator::Mul, render_int(b)), env, facts) == Ok::<
            Value,
            Halted,
        >(Value::Int(wrap(a * b))),
        fits(a + b) ==> wrap(a + b) == a + b,
        fits(a - b) ==> wrap(a - b) == a - b,
        fits(a * b) ==> wrap(a * b) == a * b,
{
    reveal(apply);
    lemma_integer_binary(a, Operator::Add, b, env, facts);
    lemma_integer_binary(a, Operator::Sub, b, env, facts);
    lemma_integer_binary(a, Operator::Mul, b, env, facts);
}

/// Truncated division: the quotient times the divisor, plus the remainder, is the
/// dividend; the remainder is smaller than the divisor; and the quotient lies between
/// zero and the exact ratio.
pub proof fn lemma_truncated_division(a: int, b: int)
    requires
        b != 0,
    ensures
        a == b * quotient(a, b) + remainder(a, b),
        magnitude_of(remainder(a, b)) < magnitude_of(b),
        magnitude_of(b * quotient(a, b)) <= magnitude_of(a),
        magnitude_of(quotient(a, b)) <= magnitude_of(a),
{
    let x = magnitude_of(a) as int;
    let d = magnitude_of(b) as int;
    vstd::arithmetic::div_mod::lemma_fundamental_div_mod(x, d);
    vstd::arithmetic::div_mod::lemma_mod_bound(x, d);
    vstd::arithmetic::div_mod::lemma_div_pos_is_pos(x, d);
    let q = x / d;
    let r = x % d;
    assert(x == d * q + r);
    assert(d * q <= x);
    assert(q <= x) by (nonlinear_arith)
        requires
            d * q <= x,
            d >= 1,
            q >= 0,
    ;
    assert(b * quotient(a, b) == (if a < 0 {
        -(d * q)
    } else {
        d * q
    })) by (nonlinear_arith)
        requires
            d == (if b < 0 {
                -b
            } else {
                b
            }),
            quotient(a, b) == (if (a < 0) != (b < 0) {
                -q
            } else {
                q
            }),
    ;
}

/// The quotient of two integer literals is truncated toward zero, and the remainder
/// is what that division leaves. The divisor is not zero, and the quotient fits in 32
/// bits.
pub proof fn law_integer_division(a: int, b: int, env: Map<Seq<char>, Type>, facts: Seq<Fact>)
    requires
        fits(a),
        fits(b),
        b != 0,
        !(a == i32::MIN && b == -1),
        !env.contains_key(render_int(a)),
        !env.contains_key(render_int(b)),
    ensures
        evaluate(binary(render_int(a), Operator::Div, render_int(b)), env, facts) == Ok::<
            Value,
            Halted,
        >(Value::Int(quotient(a, b))),
        evaluate(binary(render_int(a), Operator::Rem, render_int(b)), env, facts) == Ok::<
            Value,
            Halted,
        >(Value::Int(remainder(a, b))),
        a == b * quotient(a, b) + remainder(a, b),
        magnitude_of(remainder(a, b)) < magnitude_of(b),
        magnitude_of(b * quotient(a, b)) <= magnitude_of(a),
{
    reveal(apply);
    lemma_integer_binary(a, Operator::Div, b, env, facts);
    lemma_integer_binary(a, Operator::Rem, b, env, facts);
    lemma_truncated_division(a, b);
    let q = quotient(a, b);
    assert(fits(q)) by {
        if q == 0x8000_0000 {
            assert(a == i32::MIN);
            assert(b == 1 || b == -1) by (nonlinear_arith)
                requires
                    magnitude_of(b * q) <= 0x8000_0000,
                    q == 0x8000_0000,
                    b != 0,
            ;
        }
    }
}

/// Division and remainder by a number that is zero fail as such, whatever number
/// stands on the left.
pub proof fn law_division_by_zero(
    x: Seq<char>,
    y: Seq<char>,
    env: Map<Seq<char>, Type>,
    facts: Seq<Fact>,
)
    requires
        is_token(x),
        is_token(y),
        resolve(x, env, facts) matches Ok(left) && left.is_number(),
        resolve(y, env, facts) matches Ok(right) && right.is_zero(),
    ensures
        evaluate(binary(x, Operator::Div, y), env, facts) == Err::<Value, Halted>(
            Halted::Failed(EvalError::DivisionByZero { operator: Operator::Div }),
        ),
        evaluate(binary(x, Operator::Rem, y), env, facts) == Err::<Value, Halted>(
            Halted::Failed(EvalError::DivisionByZero { operator: Operator::Rem }),
        ),
{
    reveal(apply);
    law_binary(x, Operator::Div, y, env, facts);
    law_binary(x, Operator::Rem, y, env, facts);
}

/// Promotion: where two operand tokens stand for numbers that are not both integers,
/// the operator is applied to them as reals, an integer among them promoted to the
/// real that it is, and the result is a real. The right number is not zero where the
/// operator divides.
pub proof fn law_real_arithmetic(
    x: Seq<char>,
    operator: Operator,
    y: Seq<char>,
    env: Map<Seq<char>, Type>,
    facts: Seq<Fact>,
)
    requires
        is_token(x),
        is_token(y),
        resolve(x, env, facts) matches Ok(left) && left.is_number(),
        resolve(y, env, facts) matches Ok(right) && right.is_number(),
        !(resolve(x, env, facts)->Ok_0 is Int && resolve(y, env, facts)->Ok_0 is Int),
        (operator == Operator::Div || operator == Operator::Rem) ==> !resolve(
            y,
            env,
            facts,
        )->Ok_0.is_zero(),
    ensures
        evaluate(binary(x, operator, y), env, facts) == match combined(
            facts,
            operator,
            resolve(x, env, facts)->Ok_0.as_real(),
            resolve(y, env, facts)->Ok_0.as_real(),
        ) {
            Err(halt) => Err(halt),
            Ok(number) => Ok(Value::Float(number)),
        },
{
    reveal(apply);
    law_binary(x, operator, y, env, facts);
}

/// A text is repeated by an integer on either side of `*`, and joined with `+` to
/// whatever stands beside it: to a text as it is, to an integer in its decimal form.
pub proof fn law_text(
    x: Seq<char>,
    y: Seq<char>,
    text: Seq<char>,
    other: Seq<char>,
    count: int,
    env: Map<Seq<char>, Type>,
    facts: Seq<Fact>,
)
    requires
        is_token(x),
        is_token(y),
        resolve(x, env, facts) == Ok::<Value, Halted>(Value::Text(text)),
    ensures
        resolve(y, env, facts) == Ok::<Value, Halted>(Value::Int(count)) ==> {
            &&& evaluate(binary(x, Operator::Mul, y), env, facts) == Ok::<Value, Halted>(
                Value::Text(repeat(text, count)),
            )
            &&& evaluate(binary(x, Operator::Add, y), env, facts) == Ok::<Value, Halted>(
                Value::Text(text + render_int(count)),
            )
        },
        resolve(y, env, facts) == Ok::<Value, Halted>(Value::Text(other)) ==> evaluate(
            binary(x, Operator::Add, y),
            env,
            facts,
        ) == Ok::<Value, Halted>(Value::Text(text + other)),
{
    reveal(apply);
    law_binary(x, Operator::Mul, y, env, facts);
    law_binary(x, Operator::Add, y, env, facts);
}

/// An integer that is displayed and read again as a literal is the same integer.
pub proof fn law_integer_round_trip(i: int, facts: Seq<Fact>)
    requires
        fits(i),
    ensures
        Value::Int(i).displayed(facts) == Ok::<Seq<char>, Halted>(render_int(i)),
        coerce(render_int(i), facts) == Ok::<Value, Halted>(Value::Int(i)),
{
    lemma_parse_render(i);
}

/// Wrapping keeps an integer in its class modulo 2^32, and integers of one class wrap
/// to the same integer.
pub proof fn lemma_wrap_congruent(x: int)
    ensures
        wrap(x) % 0x1_0000_0000 == x % 0x1_0000_0000,
        fits(wrap(x)),
        forall|y: int| y % 0x1_0000_0000 == x % 0x1_0000_0000 ==> wrap(y) == wrap(x),
{
    let low = x % 0x1_0000_0000;
    vstd::arithmetic::div_mod::lemma_mod_twice(x, 0x1_0000_0000);
    vstd::arithmetic::div_mod::lemma_mod_sub_multiples_vanish(low, 0x1_0000_0000);
}

/// Wrapping the factors or the terms first does not change the wrapped result.
pub proof fn lemma_wrap_ring(x: int, y: int)
    ensures
        wrap(wrap(x) + wrap(y)) == wrap(x + y),
        wrap(wrap(x) * y) == wrap(x * y),
        wrap(x * wrap(y)) == wrap(x * y),
{
    let m = 0x1_0000_0000;
    lemma_wrap_congruent(x);
    lemma_wrap_congruent(y);
    vstd::arithmetic::div_mod::lemma_add_mod_noop(x, y, m);
    vstd::arithmetic::div_mod::lemma_add_mod_noop(wrap(x), wrap(y), m);
    vstd::arithmetic::div_mod::lemma_mul_mod_noop_general(x, y, m);
    vstd::arithmetic::div_mod::lemma_mul_mod_noop_general(wrap(x), y, m);
    vstd::arithmetic::div_mod::lemma_mul_mod_noop_general(x, wrap(y), m);
    lemma_wrap_congruent(x + y);
    lemma_wrap_congruent(x * y);
}

/// The value of `(x + y) * z`, for three operand tokens without parentheses: the sum
/// of the first two, times the third.
pub proof fn lemma_product_of_sum(
    x: Seq<char>,
    y: Seq<char>,
    z: Seq<char>,
    env: Map<Seq<char>, Type>,
    facts: Seq<Fact>,
)
    requires
        is_token(x),
        is_token(y),
        is_token(z),
        forall|k: int| 0 <= k < x.len() ==> #[trigger] x[k] != '(' && x[k] != ')',
        forall|k: int| 0 <= k < y.len() ==> #[trigger] y[k] != '(' && y[k] != ')',
    ensures
        evaluate(product_of_sum(x, y, z), env, facts) == match evaluate(
            binary(x, Operator::Add, y),
            env,
            facts,
        ) {
            Err(halt) => Err(halt),
            Ok(sum) => match resolve(z, env, facts) {
                Err(halt) => Err(halt),
                Ok(c) => apply(Operator::Mul, sum, c, facts),
            },
        },
{
    let inner = binary(x, Operator::Add, y);
    let s = product_of_sum(x, y, z);
    let n = inner.len() as int;
    let st0 = State::fresh();
    lemma_open(s, 0, st0, env, facts);
    let st1 = State { depth: 1, opened: 0, ..st0 };
    assert(stands_at(s, 1, inner));
    assert forall|k: int| 0 <= k < inner.len() implies #[trigger] inner[k] != '(' && inner[k]
        != ')' by {
        if k < x.len() {
            assert(inner[k] == x[k]);
        } else if k >= x.len() + 3 {
            assert(inner[k] == y[k - x.len() - 3]);
        }
    }
    lemma_inside(s, 1, inner, st1, env, facts);
    assert(s[n + 1] == ')');
    assert(s.subrange(1, n + 1) =~= inner);
    lemma_close(s, n + 1, st1, env, facts);
    match evaluate(inner, env, facts) {
        Err(halt) => {},
        Ok(sum) => {
            let st2 = State { depth: 0, operand: Some(sum), expected: true, ..st1 };
            assert(stands_at(s, n + 2, spaces(1)));
            lemma_spaces(s, n + 2, 1, st2, env, facts);
            assert(s[n + 3] == '*');
            lemma_operator_after_group(s, n + 3, Operator::Mul, st2, env, facts);
            let st3 = State {
                buffer: Seq::empty(),
                pending: Some((sum, Operator::Mul)),
                expected: false,
                ..st2
            };
            assert(stands_at(s, n + 4, spaces(1)));
            lemma_spaces(s, n + 4, 1, st3, env, facts);
            assert(stands_at(s, n + 5, z));
            assert(n + 5 + z.len() == s.len());
            lemma_last_operand(s, n + 5, z, st3, env, facts);
        },
    }
}

/// The value of `x*z + y*z`, for three operand tokens: the product of the first and
/// the third, plus the product of the second and the third.
pub proof fn lemma_sum_of_products(
    x: Seq<char>,
    y: Seq<char>,
    z: Seq<char>,
    env: Map<Seq<char>, Type>,
    facts: Seq<Fact>,
)
    requires
        is_token(x),
        is_token(y),
        is_token(z),
    ensures
        evaluate(sum_of_products(x, y, z), env, facts) == match resolve(x, env, facts) {
            Err(halt) => Err(halt),
            Ok(a) => match resolve(z, env, facts) {
                Err(halt) => Err(halt),
                Ok(c) => match apply(Operator::Mul, a, c, facts) {
                    Err(halt) => Err(halt),
                    Ok(left) => match resolve(y, env, facts) {
                        Err(halt) => Err(halt),
                        Ok(b) => match apply(Operator::Mul, b, c, facts) {
                            Err(halt) => Err(halt),
                            Ok(right) => apply(Operator::Add, left, right, facts),
                        },
                    },
                },
            },
        },
{
    let one = with_operator(x, 0, Operator::Mul, 0);
    let two = with_operator(z, 1, Operator::Add, 1);
    let three = with_operator(y, 0, Operator::Mul, 0);
    let s = sum_of_products(x, y, z);
    let none = Seq::<char>::empty();
    let p = one.len() as int;
    let q = p + two.len();
    let r = q + three.len();
    lemma_operand_stands(none, x, 0, Operator::Mul, 0, two + three + z);
    assert(s =~= none + one + (two + three + z));
    lemma_operand_stands(one, z, 1, Operator::Add, 1, three + z);
    assert(s =~= one + two + (three + z));
    lemma_operand_stands(one + two, y, 0, Operator::Mul, 0, z);
    lemma_end_stands(one + two + three, z);
    lemma_operand(s, 0, x, 0, Operator::Mul, 0, State::fresh(), env, facts);
    match resolve(x, env, facts) {
        Err(halt) => {},
        Ok(a) => {
            let st1 = State::resumed(a, Operator::Mul);
            lemma_operand(s, p, z, 1, Operator::Add, 1, st1, env, facts);
            match resolve(z, env, facts) {
                Err(halt) => {},
                Ok(c) => {
                    match apply(Operator::Mul, a, c, facts) {
                        Err(halt) => {},
                        Ok(left) => {
                            let st2 = State {
                                buffer: Seq::empty(),
                                operand: Some(c),
                                pending: Some((left, Operator::Add)),
                                expected: false,
                                ..st1
                            };
                            lemma_operand_of_tighter(s, q, y, 0, Operator::Mul, 0, st2, env, facts);
                            match resolve(y, env, facts) {
                                Err(halt) => {},
                                Ok(b) => {
                                    let st3 = State::resumed(b, Operator::Mul);
                                    lemma_last_operand(s, r, z, st3, env, facts);
                                },
                            }
                        },
                    }
                },
            }
        },
    }
}

/// Multiplication distributes over addition: for three integer literals, `(x + y) * z`
/// and `x*z + y*z` have the same value, the wrapped product of the sum.
pub proof fn law_distributive(
    a: int,
    b: int,
    c: int,
    env: Map<Seq<char>, Type>,
    facts: Seq<Fact>,
)
    requires
        fits(a),
        fits(b),
        fits(c),
        !env.contains_key(render_int(a)),
        !env.contains_key(render_int(b)),
        !env.contains_key(render_int(c)),
    ensures
        evaluate(product_of_sum(render_int(a), render_int(b), render_int(c)), env, facts)
            == evaluate(sum_of_products(render_int(a), render_int(b), render_int(c)), env, facts),
        evaluate(product_of_sum(render_int(a), render_int(b), render_int(c)), env, facts) == Ok::<
            Value,
            Halted,
        >(Value::Int(wrap((a + b) * c))),
{
    let x = render_int(a);
    let y = render_int(b);
    let z = render_int(c);
    lemma_render_is_token(a);
    lemma_render_is_token(b);
    lemma_render_is_token(c);
    lemma_resolve_integer(a, env, facts);
    lemma_resolve_integer(b, env, facts);
    lemma_resolve_integer(c, env, facts);
    law_integer_arithmetic(a, b, env, facts);
    lemma_product_of_sum(x, y, z, env, facts);
    lemma_sum_of_products(x, y, z, env, facts);
    assert(apply(Operator::Mul, Value::Int(wrap(a + b)), Value::Int(c), facts) == Ok::<
        Value,
        Halted,
    >(Value::Int(wrap(wrap(a + b) * c)))) by {
        reveal(apply);
    }
    assert(apply(Operator::Mul, Value::Int(a), Value::Int(c), facts) == Ok::<Value, Halted>(
        Value::Int(wrap(a * c)),
    )) by {
        reveal(apply);
    }
    assert(apply(Operator::Mul, Value::Int(b), Value::Int(c), facts) == Ok::<Value, Halted>(
        Value::Int(wrap(b * c)),
    )) by {
        reveal(apply);
    }
    assert(apply(Operator::Add, Value::Int(wrap(a * c)), Value::Int(wrap(b * c)), facts) == Ok::<
        Value,
        Halted,
    >(Value::Int(wrap(wrap(a * c) + wrap(b * c))))) by {
        reveal(apply);
    }
    lemma_wrap_ring(a + b, c);
    lemma_wrap_ring(a * c, b * c);
    assert((a + b) * c == a * c + b * c) by (nonlinear_arith);
}

/// Parentheses around a whole expression change nothing: the group has the value of
/// what it holds, and where that has no value, the group has none for the same reason.
pub proof fn law_group(g: Seq<char>, env: Map<Seq<char>, Type>, facts: Seq<Fact>)
    requires
        balanced(g),
    ensures
        evaluate(seq!['('] + g + seq![')'], env, facts) == evaluate(g, env, facts),
{
    let s = seq!['('] + g + seq![')'];
    let n = g.len() as int;
    let st0 = State::fresh();
    lemma_open(s, 0, st0, env, facts);
    let st1 = State { depth: 1, opened: 0, ..st0 };
    assert(stands_at(s, 1, g));
    lemma_inside_group(s, 1, g, n, st1, env, facts);
    assert(g.take(n) =~= g);
    assert(s[n + 1] == ')');
    if n == 0 {
        lemma_close_empty(s, 1, st1, env, facts);
        lemma_run_end(s, 2, st0, env, facts);
        lemma_run_end(g, 0, st0, env, facts);
    } else {
        assert(s.subrange(1, n + 1) =~= g);
        lemma_close(s, n + 1, st1, env, facts);
        match evaluate(g, env, facts) {
            Err(halt) => {},
            Ok(value) => {
                let st2 = State { depth: 0, operand: Some(value), expected: true, ..st1 };
                assert(n + 2 == s.len());
                lemma_last_group(s, st2, env, facts);
            },
        }
    }
}

} // verus!
